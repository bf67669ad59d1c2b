//! Dictionary of the values of properties.
//!
//! A layer holds each value of a property once, and a feature refers to a
//! value by its index. The more features use a value, the lower its index,
//! so that the indices that occur most often take the fewest bytes. Record
//! IDs are used once each and come last, in the order of the records.

use std::collections::HashMap;
use vstd::hash_map::StringHashMap;
use vstd::prelude::*;

use crate::mvt::frequency::{i64_uses, string_uses};
use crate::protos::{PropertyValue, PropertyValueView};
use crate::BusinessRecordView;

verus! {

/// Number of properties of records whose value is a given value, the record
/// ID aside.
pub open spec fn value_uses(records: Seq<BusinessRecordView>, value: PropertyValueView) -> nat {
    match value {
        PropertyValueView::String(string) => string_uses(records, string),
        PropertyValueView::I64(integer) => i64_uses(records, integer),
    }
}

/// The strings in use, each once, in the order of their first use. Of the
/// properties of a record the ID of the dog comes before the business type.
pub open spec fn strings_in_use(records: Seq<BusinessRecordView>) -> Seq<Seq<char>>
    decreases records.len(),
{
    if records.len() == 0 {
        Seq::<Seq<char>>::empty()
    } else {
        let before = strings_in_use(records.drop_last());
        let with_dog = if records.last().dog_id is Some && !before.contains(
            records.last().dog_id->0,
        ) {
            before.push(records.last().dog_id->0)
        } else {
            before
        };
        if with_dog.contains(records.last().business_type.token()) {
            with_dog
        } else {
            with_dog.push(records.last().business_type.token())
        }
    }
}

/// The integers in use, each once, in the order of their first use.
pub open spec fn integers_in_use(records: Seq<BusinessRecordView>) -> Seq<i64>
    decreases records.len(),
{
    if records.len() == 0 {
        Seq::<i64>::empty()
    } else {
        let before = integers_in_use(records.drop_last());
        if before.contains(records.last().timestamp) {
            before
        } else {
            before.push(records.last().timestamp)
        }
    }
}

/// The values in use, each once: the strings in the order of their first
/// use, and after them the integers in the order of their first use.
pub open spec fn values_in_use(records: Seq<BusinessRecordView>) -> Seq<PropertyValueView> {
    strings_in_use(records).map_values(|string: Seq<char>| PropertyValueView::String(string))
        + integers_in_use(records).map_values(|integer: i64| PropertyValueView::I64(integer))
}

/// The values of a dictionary, as mathematical values.
pub open spec fn values_view(values: Seq<PropertyValue>) -> Seq<PropertyValueView> {
    values.map_values(|value: PropertyValue| value@)
}

/// `values` is a dictionary of the properties of `records`.
///
/// It begins with the values in use, each once, from the most used to the
/// least used; values that are used equally often stand in the order of
/// [`values_in_use`]. The record IDs follow, in the order of the records.
pub open spec fn is_dictionary(
    values: Seq<PropertyValueView>,
    records: Seq<BusinessRecordView>,
) -> bool {
    let ranked = values.len() - records.len();
    &&& ranked >= 0
    &&& forall|i: int, j: int| 0 <= i < j < ranked ==> #[trigger] values[i] != #[trigger] values[j]
    &&& forall|i: int| 0 <= i < ranked ==> value_uses(records, #[trigger] values[i]) > 0
    &&& forall|value: PropertyValueView| #[trigger]
        value_uses(records, value) > 0 ==> exists|i: int|
            0 <= i < ranked && #[trigger] values[i] == value
    &&& forall|i: int, j: int|
        0 <= i < j < ranked ==> value_uses(records, #[trigger] values[i]) >= value_uses(
            records,
            #[trigger] values[j],
        )
    &&& forall|i: int, j: int|
        0 <= i < j < ranked && value_uses(records, #[trigger] values[i]) == value_uses(
            records,
            #[trigger] values[j],
        ) ==> exists|a: int, b: int|
            0 <= a < b < values_in_use(records).len() && #[trigger] values_in_use(records)[a]
                == values[i] && #[trigger] values_in_use(records)[b] == values[j]
    &&& forall|i: int|
        0 <= i < records.len() ==> values[ranked + i] == PropertyValueView::String(
            (#[trigger] records[i]).record_id,
        )
}

/// In a dictionary a value in use comes before every value that is used
/// less, and before every record ID.
pub proof fn lemma_dictionary_order(
    values: Seq<PropertyValueView>,
    records: Seq<BusinessRecordView>,
    i: int,
    j: int,
)
    requires
        is_dictionary(values, records),
        0 <= i < values.len() - records.len(),
        0 <= j < values.len(),
        j >= values.len() - records.len() || value_uses(records, values[i]) > value_uses(
            records,
            values[j],
        ),
    ensures
        i < j,
{
    if j < values.len() - records.len() && j <= i {
        if j < i {
            assert(value_uses(records, values[j]) >= value_uses(records, values[i]));
        }
    }
}

/// The index by which features refer to a value: the last place at which
/// the value stands in the dictionary, or `-1` if it is not in it.
pub open spec fn last_index_of(values: Seq<PropertyValueView>, value: PropertyValueView) -> int
    decreases values.len(),
{
    if values.len() == 0 {
        -1
    } else if values.last() == value {
        values.len() - 1
    } else {
        last_index_of(values.drop_last(), value)
    }
}

/// The index of a value is the place of the value, and no later place holds
/// the value.
pub proof fn lemma_last_index_of(values: Seq<PropertyValueView>, value: PropertyValueView)
    ensures
        -1 <= last_index_of(values, value) < values.len(),
        last_index_of(values, value) >= 0 ==> values[last_index_of(values, value)] == value,
        forall|i: int|
            last_index_of(values, value) < i < values.len() ==> #[trigger] values[i] != value,
    decreases values.len(),
{
    if values.len() > 0 && values.last() != value {
        lemma_last_index_of(values.drop_last(), value);
        assert forall|i: int| last_index_of(values, value) < i < values.len() implies #[trigger]
            values[i] != value by {
            if i < values.len() - 1 {
                assert(values.drop_last()[i] == values[i]);
            }
        }
    }
}

/// A value that stands in the dictionary has an index.
pub proof fn lemma_value_has_index(
    values: Seq<PropertyValueView>,
    value: PropertyValueView,
    at: int,
)
    requires
        0 <= at < values.len(),
        values[at] == value,
    ensures
        at <= last_index_of(values, value),
{
    lemma_last_index_of(values, value);
}

/// `order` ranks the entries of `counts`: it lists the indices of all
/// entries, from the largest entry to the smallest, and equal entries in the
/// order in which they stand in `counts`.
pub open spec fn is_ranking(order: Seq<usize>, counts: Seq<u64>) -> bool {
    &&& order.len() == counts.len()
    &&& forall|p: int| 0 <= p < order.len() ==> #[trigger] order[p] < counts.len()
    &&& forall|p: int, q: int| 0 <= p < q < order.len() ==> #[trigger] order[p] != #[trigger] order[q]
    &&& forall|i: usize| i < counts.len() ==> #[trigger] order.contains(i)
    &&& forall|p: int, q: int|
        0 <= p < q < order.len() ==> counts[#[trigger] order[p] as int] >= counts[#[trigger] order[q] as int]
    &&& forall|p: int, q: int|
        0 <= p < q < order.len() && counts[#[trigger] order[p] as int] == counts[#[trigger] order[q] as int]
            ==> order[p] < order[q]
}

/// Ranks values by their frequencies, in descending order. Values of the
/// same frequency keep their order.
pub fn rank_by_frequency(counts: &Vec<u64>) -> (order: Vec<usize>)
    ensures
        is_ranking(order@, counts@),
{
    let mut order: Vec<usize> = Vec::new();
    let mut k: usize = 0;
    while k < counts.len()
        invariant
            k <= counts.len(),
            is_ranking(order@, counts@.take(k as int)),
        decreases counts.len() - k,
    {
        let ghost before = order@;
        let mut p: usize = order.len();
        while p > 0 && counts[order[p - 1]] < counts[k]
            invariant
                p <= order.len(),
                order@ == before,
                k < counts.len(),
                is_ranking(order@, counts@.take(k as int)),
                forall|q: int| p <= q < order.len() ==> counts[#[trigger] order[q] as int] < counts[k as int],
            decreases p,
        {
            p = p - 1;
        }
        order.insert(p, k);
        proof {
            let after = order@;
            let seen = counts@.take(k as int);
            let seen_after = counts@.take(k + 1);
            assert forall|q: int| 0 <= q < after.len() implies #[trigger] after[q] == (if q < p {
                before[q]
            } else if q == p {
                k
            } else {
                before[q - 1]
            }) by {}
            assert forall|i: usize| i < seen_after.len() implies #[trigger] after.contains(i) by {
                if i < k {
                    assert(before.contains(i));
                    let q = choose|q: int| 0 <= q < before.len() && #[trigger] before[q] == i;
                    if q < p {
                        assert(after[q] == i);
                    } else {
                        assert(after[q + 1] == i);
                    }
                } else {
                    assert(after[p as int] == i);
                }
            }
            assert forall|a: int, b: int| 0 <= a < b < after.len() implies #[trigger] after[a]
                != #[trigger] after[b] && seen_after[after[a] as int] >= seen_after[after[b] as int]
                && (seen_after[after[a] as int] == seen_after[after[b] as int] ==> after[a]
                < after[b]) by {
                let ia = if a < p { a } else { a - 1 };
                let ib = if b < p { b } else { b - 1 };
                if a != p && b != p {
                    assert(before[ia] != before[ib]);
                    assert(seen[before[ia] as int] >= seen[before[ib] as int]);
                } else if a == p {
                    assert(counts[before[ib] as int] < counts[k as int]);
                    assert(before[ib] < k);
                } else {
                    assert(before[ia] < k);
                    if p > 0 {
                        if a < p - 1 {
                            assert(seen[before[a] as int] >= seen[before[p - 1] as int]);
                        }
                    }
                }
            }
        }
        k = k + 1;
    }
    assert(counts@.take(k as int) =~= counts@);
    order
}

/// A map holds the index of every string of a dictionary, and of no other
/// string.
pub open spec fn indexes_strings(index: Map<Seq<char>, u32>, values: Seq<PropertyValueView>) -> bool {
    &&& forall|string: Seq<char>| #[trigger]
        index.contains_key(string) <==> last_index_of(values, PropertyValueView::String(string))
            >= 0
    &&& forall|string: Seq<char>|
        index.contains_key(string) ==> #[trigger] index[string] == last_index_of(
            values,
            PropertyValueView::String(string),
        )
}

/// A map holds the index of every integer of a dictionary, and of no other
/// integer.
pub open spec fn indexes_integers(index: Map<i64, u32>, values: Seq<PropertyValueView>) -> bool {
    &&& forall|integer: i64| #[trigger]
        index.contains_key(integer) <==> last_index_of(values, PropertyValueView::I64(integer))
            >= 0
    &&& forall|integer: i64|
        index.contains_key(integer) ==> #[trigger] index[integer] == last_index_of(
            values,
            PropertyValueView::I64(integer),
        )
}

/// Number of values that a dictionary holds at most: the indices of values
/// have 32 bits.
pub const MAX_VALUES: usize = 0xFFFF_FFFF;

/// Builds the map from the strings of a dictionary to their indices.
pub fn index_strings(values: &Vec<PropertyValue>) -> (index: StringHashMap<u32>)
    requires
        values.len() <= MAX_VALUES,
    ensures
        indexes_strings(index@, values_view(values@)),
{
    let mut index: StringHashMap<u32> = StringHashMap::new();
    let mut i: usize = 0;
    while i < values.len()
        invariant
            i <= values.len() <= MAX_VALUES,
            indexes_strings(index@, values_view(values@).take(i as int)),
        decreases values.len() - i,
    {
        proof {
            let seen = values_view(values@).take(i as int);
            let seen_after = values_view(values@).take(i + 1);
            assert(seen_after.drop_last() =~= seen);
            assert(seen_after.last() == values@[i as int]@);
        }
        match &values[i] {
            PropertyValue::String(string) => {
                index.insert(string.clone(), i as u32);
            },
            PropertyValue::I64(_) => {},
        }
        i = i + 1;
    }
    assert(values_view(values@).take(i as int) =~= values_view(values@));
    index
}

/// Builds the map from the integers of a dictionary to their indices.
pub fn index_integers(values: &Vec<PropertyValue>) -> (index: HashMap<i64, u32>)
    requires
        values.len() <= MAX_VALUES,
    ensures
        indexes_integers(index@, values_view(values@)),
{
    let mut index: HashMap<i64, u32> = HashMap::new();
    let mut i: usize = 0;
    while i < values.len()
        invariant
            i <= values.len() <= MAX_VALUES,
            indexes_integers(index@, values_view(values@).take(i as int)),
        decreases values.len() - i,
    {
        proof {
            let seen = values_view(values@).take(i as int);
            let seen_after = values_view(values@).take(i + 1);
            assert(seen_after.drop_last() =~= seen);
            assert(seen_after.last() == values@[i as int]@);
        }
        match &values[i] {
            PropertyValue::String(_) => {},
            PropertyValue::I64(integer) => {
                index.insert(*integer, i as u32);
            },
        }
        i = i + 1;
    }
    assert(values_view(values@).take(i as int) =~= values_view(values@));
    index
}

} // verus!
