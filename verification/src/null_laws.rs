//! What the two null rules leave alone: removing null-valued keys keeps every
//! other entry, and writing nulls as text changes nothing but nulls.
use vstd::prelude::*;

use crate::laws::{law_object_merge, lemma_find_entry};
use crate::merge::merge;
use crate::nulls::{
    entries_without_null_keys, items_without_null_keys, lemma_null_free_entries,
    lemma_null_free_items, null_free, null_free_entries, null_free_items, nulls_as_text,
    without_null_keys,
};
use crate::value::{distinct_keys, find_entry, obj_get, wf, Json};

verus! {

/// No null occurs anywhere in the document: not as the document, not as an
/// array item, not as an entry's value.
pub open spec fn null_less(v: Json) -> bool
    decreases v,
{
    match v {
        Json::Null => false,
        Json::Array(items) => null_less_items(items),
        Json::Object(entries) => null_less_entries(entries),
        _ => true,
    }
}

/// No document of the list holds a null.
pub open spec fn null_less_items(items: Seq<Json>) -> bool
    decreases items,
{
    if items.len() == 0 {
        true
    } else {
        null_less_items(items.drop_last()) && null_less(items.last())
    }
}

/// No value of the entries holds a null.
pub open spec fn null_less_entries(entries: Seq<(Seq<char>, Json)>) -> bool
    decreases entries,
{
    if entries.len() == 0 {
        true
    } else {
        null_less_entries(entries.drop_last()) && null_less(entries.last().1)
    }
}

proof fn lemma_null_less_items(items: Seq<Json>)
    ensures
        null_less_items(items) == forall|i: int| 0 <= i < items.len() ==> #[trigger] null_less(items[i]),
    decreases items.len(),
{
    if items.len() > 0 {
        let d = items.drop_last();
        assert(null_less_items(items) == (null_less_items(d) && null_less(items.last())));
        lemma_null_less_items(d);
        assert(items.last() == items[items.len() - 1]);
        if forall|i: int| 0 <= i < items.len() ==> #[trigger] null_less(items[i]) {
            assert forall|i: int| 0 <= i < d.len() implies #[trigger] null_less(d[i]) by {
                assert(d[i] == items[i]);
            }
        }
        if null_less_items(items) {
            assert forall|i: int| 0 <= i < items.len() implies #[trigger] null_less(items[i]) by {
                if i < d.len() {
                    assert(d[i] == items[i]);
                }
            }
        }
    }
}

proof fn lemma_null_less_entries(entries: Seq<(Seq<char>, Json)>)
    ensures
        null_less_entries(entries) == forall|i: int|
            0 <= i < entries.len() ==> #[trigger] null_less(entries[i].1),
    decreases entries.len(),
{
    if entries.len() > 0 {
        let d = entries.drop_last();
        assert(null_less_entries(entries) == (null_less_entries(d) && null_less(
            entries.last().1,
        )));
        lemma_null_less_entries(d);
        assert(entries.last() == entries[entries.len() - 1]);
        if forall|i: int| 0 <= i < entries.len() ==> #[trigger] null_less(entries[i].1) {
            assert forall|i: int| 0 <= i < d.len() implies #[trigger] null_less(d[i].1) by {
                assert(d[i] == entries[i]);
            }
        }
        if null_less_entries(entries) {
            assert forall|i: int| 0 <= i < entries.len() implies #[trigger] null_less(
                entries[i].1,
            ) by {
                if i < d.len() {
                    assert(d[i] == entries[i]);
                }
            }
        }
    }
}

/// Removing null-valued keys changes nothing in a document that binds no key
/// to null: every entry whose value is not null is kept, with its value.
pub proof fn law_without_null_keys_keeps_null_free(v: Json)
    requires
        null_free(v),
    ensures
        without_null_keys(v) == v,
    decreases v, 1int,
{
    match v {
        Json::Array(items) => lemma_items_identity(items),
        Json::Object(entries) => lemma_entries_identity(entries),
        _ => {},
    }
}

proof fn lemma_items_identity(items: Seq<Json>)
    requires
        null_free_items(items),
    ensures
        items_without_null_keys(items) == items,
    decreases items, 0int,
{
    lemma_null_free_items(items);
    assert forall|i: int| 0 <= i < items.len() implies #[trigger] items_without_null_keys(items)[i]
        == items[i] by {
        assert(decreases_to!(items => items[i]));
        law_without_null_keys_keeps_null_free(items[i]);
    }
    assert(items_without_null_keys(items) =~= items);
}

proof fn lemma_entries_identity(entries: Seq<(Seq<char>, Json)>)
    requires
        null_free_entries(entries),
    ensures
        entries_without_null_keys(entries) == entries,
    decreases entries, 0int,
{
    if entries.len() > 0 {
        let d = entries.drop_last();
        let last = entries.last();
        assert(null_free_entries(entries) == (null_free_entries(d) && !(last.1 is Null)
            && null_free(last.1)));
        assert(decreases_to!(entries => entries.drop_last()));
        lemma_entries_identity(d);
        assert(last == entries[entries.len() - 1]);
        assert(decreases_to!(entries => entries[entries.len() - 1]));
        assert(decreases_to!(entries[entries.len() - 1] => entries[entries.len() - 1].1));
        law_without_null_keys_keeps_null_free(last.1);
        assert(d.push(last) =~= entries);
    } else {
        assert(entries =~= Seq::<(Seq<char>, Json)>::empty());
    }
}

/// Removing null-valued keys from an object without repeated keys: a key
/// bound to null is gone, every other key keeps its entry, its value without
/// null-valued keys, and no key is added.
pub proof fn law_without_null_keys_lookup(entries: Seq<(Seq<char>, Json)>, k: Seq<char>)
    requires
        distinct_keys(entries),
    ensures
        obj_get(entries_without_null_keys(entries), k) == match obj_get(entries, k) {
            Some(v) => if v is Null {
                None
            } else {
                Some(without_null_keys(v))
            },
            None => None::<Json>,
        },
    decreases entries.len(),
{
    if entries.len() > 0 {
        let d = entries.drop_last();
        let last = entries.last();
        let rest = entries_without_null_keys(d);
        let r = entries_without_null_keys(entries);
        assert(distinct_keys(d)) by {
            assert forall|a: int, b: int|
                0 <= a < d.len() && 0 <= b < d.len() && a != b implies #[trigger] d[a].0
                != #[trigger] d[b].0 by {
                assert(d[a] == entries[a]);
                assert(d[b] == entries[b]);
            }
        }
        law_without_null_keys_lookup(d, k);
        lemma_find_entry(d, k);
        if k == last.0 {
            // `k` is held by the last entry only.
            let f = find_entry(d, k);
            if f >= 0 {
                assert(d[f] == entries[f]);
                assert(entries[entries.len() - 1] == last);
            }
            assert(obj_get(d, k) is None);
            assert(obj_get(entries, k) == Some(last.1));
            if !(last.1 is Null) {
                assert(r == rest.push((last.0, without_null_keys(last.1))));
            }
        } else {
            assert(find_entry(entries, k) == find_entry(d, k));
            if find_entry(d, k) >= 0 {
                assert(d[find_entry(d, k)] == entries[find_entry(d, k)]);
            }
            assert(obj_get(entries, k) == obj_get(d, k));
            if !(last.1 is Null) {
                let rr = rest.push((last.0, without_null_keys(last.1)));
                assert(r == rr);
                assert(rr.drop_last() =~= rest);
                assert(find_entry(rr, k) == find_entry(rest, k));
                if find_entry(rest, k) >= 0 {
                    lemma_find_entry(rest, k);
                    assert(rr[find_entry(rest, k)] == rest[find_entry(rest, k)]);
                }
            }
        }
    }
}

/// Writing nulls as text changes nothing in a document that holds no null.
pub proof fn law_nulls_as_text_keeps_null_less(v: Json)
    requires
        null_less(v),
    ensures
        nulls_as_text(v) == v,
    decreases v,
{
    match v {
        Json::Array(items) => {
            lemma_null_less_items(items);
            let r = nulls_as_text(v)->Array_0;
            assert forall|i: int| 0 <= i < items.len() implies #[trigger] r[i] == items[i] by {
                assert(decreases_to!(v => v->Array_0));
                assert(decreases_to!(items => items[i]));
                law_nulls_as_text_keeps_null_less(items[i]);
            }
            assert(r =~= items);
        },
        Json::Object(entries) => {
            lemma_null_less_entries(entries);
            let r = nulls_as_text(v)->Object_0;
            assert forall|i: int| 0 <= i < entries.len() implies #[trigger] r[i] == entries[i] by {
                assert(decreases_to!(v => v->Object_0));
                assert(decreases_to!(entries => entries[i]));
                assert(decreases_to!(entries[i] => entries[i].1));
                law_nulls_as_text_keeps_null_less(entries[i].1);
            }
            assert(r =~= entries);
        },
        _ => {},
    }
}

/// Writing nulls as text leaves no null, keeps the shape of the document, and
/// turns exactly the nulls into the text `null`: each array item and each
/// entry's value is written in turn, under the same key.
pub proof fn law_nulls_as_text_shape(v: Json)
    ensures
        null_less(nulls_as_text(v)),
        (nulls_as_text(v) == Json::Str("null"@)) <== (v is Null),
        !(v is Null) && !(v is Array) && !(v is Object) ==> nulls_as_text(v) == v,
        v matches Json::Array(items) ==> nulls_as_text(v) matches Json::Array(r) && r.len()
            == items.len() && forall|i: int|
            0 <= i < items.len() ==> #[trigger] r[i] == nulls_as_text(items[i]),
        v matches Json::Object(es) ==> nulls_as_text(v) matches Json::Object(r) && r.len()
            == es.len() && forall|i: int|
            0 <= i < es.len() ==> #[trigger] r[i] == (es[i].0, nulls_as_text(es[i].1)),
    decreases v,
{
    match v {
        Json::Array(items) => {
            let r = nulls_as_text(v)->Array_0;
            lemma_null_less_items(r);
            assert forall|i: int| 0 <= i < r.len() implies #[trigger] null_less(r[i]) by {
                assert(decreases_to!(v => v->Array_0));
                assert(decreases_to!(items => items[i]));
                law_nulls_as_text_shape(items[i]);
            }
        },
        Json::Object(es) => {
            let r = nulls_as_text(v)->Object_0;
            lemma_null_less_entries(r);
            assert forall|i: int| 0 <= i < r.len() implies #[trigger] null_less(r[i].1) by {
                assert(decreases_to!(v => v->Object_0));
                assert(decreases_to!(es => es[i]));
                assert(decreases_to!(es[i] => es[i].1));
                law_nulls_as_text_shape(es[i].1);
            }
        },
        _ => {},
    }
}

/// A key that only the overlay object has, bound to a value that binds no key
/// to null, enters the merge with that very value.
pub proof fn law_new_key_enters_as_is(base: Json, overlay: Json, key: Seq<char>, k: Seq<char>)
    requires
        base is Object,
        overlay is Object,
        wf(base),
        wf(overlay),
        obj_get(base->Object_0, k) is None,
        obj_get(overlay->Object_0, k) matches Some(v) && !(v is Null) && null_free(v),
    ensures
        obj_get(merge(base, overlay, key)->Object_0, k) == obj_get(overlay->Object_0, k),
{
    law_object_merge(base, overlay, key);
    let v = obj_get(overlay->Object_0, k)->0;
    law_without_null_keys_keeps_null_free(v);
}

} // verus!
