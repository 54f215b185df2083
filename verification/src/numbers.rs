//! Documents whose numbers all have a text that serde_json reads as a number.
use vstd::prelude::*;

use crate::codec::json_number_text;
use crate::nulls::{entries_without_null_keys, items_without_null_keys, without_null_keys};
use crate::value::Json;

verus! {

/// Every number of the document has a text that serde_json reads as a
/// number.
pub open spec fn numbers_valid(v: Json) -> bool
    decreases v,
{
    match v {
        Json::Number(t) => json_number_text(t),
        Json::Array(items) => numbers_valid_items(items),
        Json::Object(entries) => numbers_valid_entries(entries),
        _ => true,
    }
}

/// Every document of the list has valid numbers.
pub open spec fn numbers_valid_items(items: Seq<Json>) -> bool
    decreases items,
{
    if items.len() == 0 {
        true
    } else {
        numbers_valid_items(items.drop_last()) && numbers_valid(items.last())
    }
}

/// Every value of the entries has valid numbers.
pub open spec fn numbers_valid_entries(entries: Seq<(Seq<char>, Json)>) -> bool
    decreases entries,
{
    if entries.len() == 0 {
        true
    } else {
        numbers_valid_entries(entries.drop_last()) && numbers_valid(entries.last().1)
    }
}

/// A list has valid numbers exactly when each of its documents has.
pub proof fn lemma_numbers_valid_items(items: Seq<Json>)
    ensures
        numbers_valid_items(items) == forall|i: int|
            0 <= i < items.len() ==> #[trigger] numbers_valid(items[i]),
    decreases items.len(),
{
    if items.len() > 0 {
        let d = items.drop_last();
        assert(numbers_valid_items(items) == (numbers_valid_items(d) && numbers_valid(
            items.last(),
        )));
        lemma_numbers_valid_items(d);
        assert(items.last() == items[items.len() - 1]);
        if forall|i: int| 0 <= i < items.len() ==> #[trigger] numbers_valid(items[i]) {
            assert forall|i: int| 0 <= i < d.len() implies #[trigger] numbers_valid(d[i]) by {
                assert(d[i] == items[i]);
            }
        }
        if numbers_valid_items(items) {
            assert forall|i: int| 0 <= i < items.len() implies #[trigger] numbers_valid(items[i]) by {
                if i < d.len() {
                    assert(d[i] == items[i]);
                }
            }
        }
    }
}

/// Entries have valid numbers exactly when each value has.
pub proof fn lemma_numbers_valid_entries(entries: Seq<(Seq<char>, Json)>)
    ensures
        numbers_valid_entries(entries) == forall|i: int|
            0 <= i < entries.len() ==> #[trigger] numbers_valid(entries[i].1),
    decreases entries.len(),
{
    if entries.len() > 0 {
        let d = entries.drop_last();
        assert(numbers_valid_entries(entries) == (numbers_valid_entries(d) && numbers_valid(
            entries.last().1,
        )));
        lemma_numbers_valid_entries(d);
        assert(entries.last() == entries[entries.len() - 1]);
        if forall|i: int| 0 <= i < entries.len() ==> #[trigger] numbers_valid(entries[i].1) {
            assert forall|i: int| 0 <= i < d.len() implies #[trigger] numbers_valid(d[i].1) by {
                assert(d[i] == entries[i]);
            }
        }
        if numbers_valid_entries(entries) {
            assert forall|i: int| 0 <= i < entries.len() implies #[trigger] numbers_valid(
                entries[i].1,
            ) by {
                if i < d.len() {
                    assert(d[i] == entries[i]);
                }
            }
        }
    }
}

/// Removing null-valued keys keeps the numbers valid.
pub proof fn lemma_without_null_keys_numbers(v: Json)
    requires
        numbers_valid(v),
    ensures
        numbers_valid(without_null_keys(v)),
    decreases v, 1int,
{
    match v {
        Json::Array(items) => lemma_items_numbers(items),
        Json::Object(entries) => lemma_entries_numbers(entries),
        _ => {},
    }
}

proof fn lemma_items_numbers(items: Seq<Json>)
    requires
        numbers_valid_items(items),
    ensures
        numbers_valid_items(items_without_null_keys(items)),
    decreases items, 0int,
{
    let r = items_without_null_keys(items);
    lemma_numbers_valid_items(items);
    lemma_numbers_valid_items(r);
    assert forall|i: int| 0 <= i < r.len() implies #[trigger] numbers_valid(r[i]) by {
        assert(decreases_to!(items => items[i]));
        lemma_without_null_keys_numbers(items[i]);
    }
}

proof fn lemma_entries_numbers(entries: Seq<(Seq<char>, Json)>)
    requires
        numbers_valid_entries(entries),
    ensures
        numbers_valid_entries(entries_without_null_keys(entries)),
    decreases entries, 0int,
{
    if entries.len() > 0 {
        let d = entries.drop_last();
        let last = entries.last();
        assert(decreases_to!(entries => entries.drop_last()));
        lemma_entries_numbers(d);
        let rest = entries_without_null_keys(d);
        let r = entries_without_null_keys(entries);
        assert(last == entries[entries.len() - 1]);
        assert(decreases_to!(entries => entries[entries.len() - 1]));
        assert(decreases_to!(entries[entries.len() - 1] => entries[entries.len() - 1].1));
        if !(last.1 is Null) {
            lemma_without_null_keys_numbers(last.1);
            assert(r == rest.push((last.0, without_null_keys(last.1))));
            assert(r.drop_last() =~= rest);
        }
    }
}

} // verus!
