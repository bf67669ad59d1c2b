//! Frequencies of the values of properties.
//!
//! A value is in use as often as records have it as the value of a
//! property: as the ID of the dog, as the business type, or as the
//! timestamp. The record ID is left out: no two records share it. A table of
//! frequencies holds each value in use once, with the number of its uses,
//! in the order in which the values came into use.

use vstd::prelude::*;

use crate::BusinessRecordView;

verus! {

/// Number of properties of a record whose value is a given string: the ID
/// of the dog, if there is one, and the token of the business type.
pub open spec fn string_uses_of(record: BusinessRecordView, value: Seq<char>) -> nat {
    (if record.dog_id == Some(value) {
        1nat
    } else {
        0nat
    }) + (if record.business_type.token() == value {
        1nat
    } else {
        0nat
    })
}

/// Number of properties of records whose value is a given string.
pub open spec fn string_uses(records: Seq<BusinessRecordView>, value: Seq<char>) -> nat
    decreases records.len(),
{
    if records.len() == 0 {
        0
    } else {
        string_uses(records.drop_last(), value) + string_uses_of(records.last(), value)
    }
}

/// Number of properties of a record whose value is a given integer: the
/// timestamp.
pub open spec fn i64_uses_of(record: BusinessRecordView, value: i64) -> nat {
    if record.timestamp == value {
        1nat
    } else {
        0nat
    }
}

/// Number of properties of records whose value is a given integer.
pub open spec fn i64_uses(records: Seq<BusinessRecordView>, value: i64) -> nat
    decreases records.len(),
{
    if records.len() == 0 {
        0
    } else {
        i64_uses(records.drop_last(), value) + i64_uses_of(records.last(), value)
    }
}

/// A table of values and their frequencies has a given value.
pub open spec fn has_key<K>(table: Seq<(K, u64)>, key: K) -> bool {
    exists|i: int| 0 <= i < table.len() && (#[trigger] table[i]).0 == key
}

/// No value occurs twice in a table of values and their frequencies.
pub open spec fn distinct_keys<K>(table: Seq<(K, u64)>) -> bool {
    forall|i: int, j: int|
        0 <= i < j < table.len() ==> (#[trigger] table[i]).0 != (#[trigger] table[j]).0
}

/// A table holds exactly the values that are in use, each once and with the
/// number of its uses.
pub open spec fn tallies<K>(table: Seq<(K, u64)>, uses: spec_fn(K) -> nat) -> bool {
    &&& distinct_keys(table)
    &&& forall|i: int|
        0 <= i < table.len() ==> (#[trigger] table[i]).1 == uses(table[i].0) && table[i].1 > 0
    &&& forall|key: K| #[trigger] uses(key) > 0 ==> has_key(table, key)
}

/// The values of a table, in the order of the table.
pub open spec fn keys_of<K>(table: Seq<(K, u64)>) -> Seq<K> {
    table.map_values(|entry: (K, u64)| entry.0)
}

/// The table after one more use of a value.
pub open spec fn bumped<K>(table: Seq<(K, u64)>, key: K) -> Seq<(K, u64)> {
    if has_key(table, key) {
        let i = choose|i: int| 0 <= i < table.len() && (#[trigger] table[i]).0 == key;
        table.update(i, (key, (table[i].1 + 1) as u64))
    } else {
        table.push((key, 1u64))
    }
}

/// A table that tallies uses still does after one more use of a value.
pub(crate) proof fn lemma_bumped_tallies<K>(
    table: Seq<(K, u64)>,
    key: K,
    uses: spec_fn(K) -> nat,
    uses_after: spec_fn(K) -> nat,
)
    requires
        tallies(table, uses),
        uses(key) < u64::MAX,
        forall|k: K|
            #[trigger] uses_after(k) == uses(k) + (if k == key {
                1nat
            } else {
                0nat
            }),
    ensures
        tallies(bumped(table, key), uses_after),
        bumped(table, key).len() <= table.len() + 1,
{
    let after = bumped(table, key);
    if has_key(table, key) {
        let at = choose|i: int| 0 <= i < table.len() && (#[trigger] table[i]).0 == key;
        assert forall|i: int| 0 <= i < after.len() implies (#[trigger] after[i]).0 == table[i].0
            && after[i].1 == uses_after(after[i].0) && after[i].1 > 0 by {
            if i != at {
                assert(table[i].0 != table[at].0);
            }
        }
        assert forall|k: K| #[trigger] uses_after(k) > 0 implies has_key(after, k) by {
            if k == key {
                assert(after[at].0 == k);
            } else {
                assert(uses(k) > 0);
                let i = choose|i: int| 0 <= i < table.len() && (#[trigger] table[i]).0 == k;
                assert(after[i].0 == k);
            }
        }
    } else {
        assert(uses(key) == 0);
        assert forall|i: int| 0 <= i < after.len() implies (#[trigger] after[i]).1 == uses_after(
            after[i].0,
        ) && after[i].1 > 0 by {
            if i < table.len() {
                assert(after[i] == table[i]);
                assert(table[i].0 != key);
            }
        }
        assert forall|i: int, j: int| 0 <= i < j < after.len() implies (#[trigger] after[i]).0 != (
        #[trigger] after[j]).0 by {
            assert(after[i] == table[i]);
            if j < table.len() {
                assert(after[j] == table[j]);
            }
        }
        assert forall|k: K| #[trigger] uses_after(k) > 0 implies has_key(after, k) by {
            if k == key {
                assert(after[table.len() as int].0 == k);
            } else {
                assert(uses(k) > 0);
                let i = choose|i: int| 0 <= i < table.len() && (#[trigger] table[i]).0 == k;
                assert(after[i].0 == k);
            }
        }
    }
}

/// One more use of a value adds the value at the end of the table, unless
/// the table has it.
pub(crate) proof fn lemma_bumped_keys<K>(table: Seq<(K, u64)>, key: K)
    ensures
        keys_of(bumped(table, key)) == if keys_of(table).contains(key) {
            keys_of(table)
        } else {
            keys_of(table).push(key)
        },
{
    let keys = keys_of(table);
    if has_key(table, key) {
        let at = choose|i: int| 0 <= i < table.len() && (#[trigger] table[i]).0 == key;
        assert(keys[at] == key);
        assert(keys_of(bumped(table, key)) =~= keys);
    } else {
        if keys.contains(key) {
            let at = choose|i: int| 0 <= i < keys.len() && keys[i] == key;
            assert(table[at].0 == key);
        }
        assert(keys_of(bumped(table, key)) =~= keys.push(key));
    }
}

/// Whether a table tallies uses depends on the numbers of uses alone.
pub(crate) proof fn lemma_tallies_same_uses<K>(
    table: Seq<(K, u64)>,
    uses: spec_fn(K) -> nat,
    same_uses: spec_fn(K) -> nat,
)
    requires
        tallies(table, uses),
        forall|k: K| #[trigger] same_uses(k) == uses(k),
    ensures
        tallies(table, same_uses),
{
    assert forall|i: int| 0 <= i < table.len() implies (#[trigger] table[i]).1 == same_uses(
        table[i].0,
    ) && table[i].1 > 0 by {
        assert(same_uses(table[i].0) == uses(table[i].0));
    }
    assert forall|key: K| #[trigger] same_uses(key) > 0 implies has_key(table, key) by {
        assert(uses(key) > 0);
    }
}

/// A record has at most two properties with a given string as their value.
pub(crate) proof fn lemma_string_uses_bound(records: Seq<BusinessRecordView>, value: Seq<char>)
    ensures
        string_uses(records, value) <= 2 * records.len(),
    decreases records.len(),
{
    if records.len() > 0 {
        lemma_string_uses_bound(records.drop_last(), value);
    }
}

/// A record has at most one property with a given integer as its value.
pub(crate) proof fn lemma_i64_uses_bound(records: Seq<BusinessRecordView>, value: i64)
    ensures
        i64_uses(records, value) <= records.len(),
    decreases records.len(),
{
    if records.len() > 0 {
        lemma_i64_uses_bound(records.drop_last(), value);
    }
}

/// Each property of a record is a use of its value.
pub(crate) proof fn lemma_uses_of_record(records: Seq<BusinessRecordView>, i: int)
    requires
        0 <= i < records.len(),
    ensures
        string_uses(records, records[i].business_type.token()) > 0,
        i64_uses(records, records[i].timestamp) > 0,
        records[i].dog_id matches Some(dog_id) ==> string_uses(records, dog_id) > 0,
    decreases records.len(),
{
    if i < records.len() - 1 {
        lemma_uses_of_record(records.drop_last(), i);
    }
}

/// Finds a string in a table of strings and their frequencies: returns its
/// index, or the length of the table if the string is not in it.
pub(crate) fn position_of_string(table: &Vec<(String, u64)>, value: &String) -> (at: usize)
    ensures
        at <= table.len(),
        at < table.len() ==> table[at as int].0@ == value@,
        forall|j: int| 0 <= j < at ==> (#[trigger] table[j]).0@ != value@,
{
    let mut i: usize = 0;
    while i < table.len()
        invariant
            i <= table.len(),
            forall|j: int| 0 <= j < i ==> (#[trigger] table[j]).0@ != value@,
        decreases table.len() - i,
    {
        if table[i].0 == *value {
            return i;
        }
        i = i + 1;
    }
    i
}

/// Finds an integer in a table of integers and their frequencies: returns
/// its index, or the length of the table if the integer is not in it.
pub(crate) fn position_of_i64(table: &Vec<(i64, u64)>, value: i64) -> (at: usize)
    ensures
        at <= table.len(),
        at < table.len() ==> table[at as int].0 == value,
        forall|j: int| 0 <= j < at ==> (#[trigger] table[j]).0 != value,
{
    let mut i: usize = 0;
    while i < table.len()
        invariant
            i <= table.len(),
            forall|j: int| 0 <= j < i ==> (#[trigger] table[j]).0 != value,
        decreases table.len() - i,
    {
        if table[i].0 == value {
            return i;
        }
        i = i + 1;
    }
    i
}

} // verus!
