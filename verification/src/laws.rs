//! Properties of the deep merge, stated over the document model and proved.
use vstd::prelude::*;

use crate::merge::{
    is_matched, key_value, last_match, match_index, merge, merge_all_spec, merge_entries,
    merge_item, merge_items, smart_merged, unmatched,
};
use crate::nulls::{
    items_without_null_keys, lemma_null_free_entries, lemma_null_free_items,
    lemma_without_null_keys, lemma_without_null_keys_null, null_free, without_null_keys,
};
use crate::numbers::{
    lemma_numbers_valid_entries, lemma_numbers_valid_items, lemma_without_null_keys_numbers,
    numbers_valid,
};
use crate::value::{
    distinct_keys, find_entry, lemma_wf_entries, lemma_wf_items, obj_get, wf, wf_entries, wf_items,
    Json,
};

verus! {

/// What a key maps to after an object merge, given what the base and the
/// overlay map it to: the base value when the overlay lacks the key; nothing
/// when the overlay maps it to null; otherwise the merge of both values, or,
/// when the base lacks the key, the overlay value without the keys it binds
/// to null.
pub open spec fn merged_lookup(base: Option<Json>, overlay: Option<Json>, key: Seq<char>) -> Option<
    Json,
> {
    match overlay {
        None => base,
        Some(v) => if v is Null {
            None
        } else {
            match base {
                Some(b) => Some(merge(b, v, key)),
                None => Some(without_null_keys(v)),
            }
        },
    }
}

/// `find_entry` finds an entry with the key, and no later one has it.
pub proof fn lemma_find_entry(s: Seq<(Seq<char>, Json)>, k: Seq<char>)
    ensures
        -1 <= find_entry(s, k) < s.len(),
        find_entry(s, k) >= 0 ==> s[find_entry(s, k)].0 == k,
        forall|j: int| find_entry(s, k) < j < s.len() ==> #[trigger] s[j].0 != k,
    decreases s.len(),
{
    if s.len() > 0 && s.last().0 != k {
        lemma_find_entry(s.drop_last(), k);
        assert forall|j: int| find_entry(s, k) < j < s.len() implies #[trigger] s[j].0 != k by {
            if j < s.len() - 1 {
                assert(s.drop_last()[j] == s[j]);
            }
        }
    }
}

/// In an object without repeated keys, a key maps to the value of the entry
/// that holds it, and to nothing when no entry does.
pub proof fn lemma_obj_get(s: Seq<(Seq<char>, Json)>, k: Seq<char>)
    requires
        distinct_keys(s),
    ensures
        forall|j: int| 0 <= j < s.len() && #[trigger] s[j].0 == k ==> obj_get(s, k) == Some(s[j].1),
        (forall|j: int| 0 <= j < s.len() ==> #[trigger] s[j].0 != k) ==> obj_get(s, k) is None,
{
    lemma_find_entry(s, k);
    let f = find_entry(s, k);
    assert forall|j: int| 0 <= j < s.len() && #[trigger] s[j].0 == k implies obj_get(s, k) == Some(
        s[j].1,
    ) by {
        if f != j {
            if f < j {
            } else {
                assert(s[f].0 == s[j].0);
            }
        }
    }
}

/// Replacing the value of an entry keeps the keys distinct and changes what
/// that key alone maps to.
pub proof fn lemma_obj_update(s: Seq<(Seq<char>, Json)>, j: int, m: Json)
    requires
        distinct_keys(s),
        0 <= j < s.len(),
    ensures
        distinct_keys(s.update(j, (s[j].0, m))),
        forall|k: Seq<char>|
            #[trigger] obj_get(s.update(j, (s[j].0, m)), k) == if k == s[j].0 {
                Some(m)
            } else {
                obj_get(s, k)
            },
{
    let t = s.update(j, (s[j].0, m));
    assert(distinct_keys(t)) by {
        assert forall|a: int, b: int|
            0 <= a < t.len() && 0 <= b < t.len() && a != b implies #[trigger] t[a].0 != #[trigger] t[b].0 by {
            assert(t[a].0 == s[a].0);
            assert(t[b].0 == s[b].0);
        }
    }
    assert forall|k: Seq<char>| #[trigger]
        obj_get(t, k) == if k == s[j].0 {
            Some(m)
        } else {
            obj_get(s, k)
        } by {
        lemma_obj_get(s, k);
        lemma_obj_get(t, k);
        if k == s[j].0 {
            assert(t[j].0 == k);
        } else {
            if exists|x: int| 0 <= x < s.len() && #[trigger] s[x].0 == k {
                let x = choose|x: int| 0 <= x < s.len() && #[trigger] s[x].0 == k;
                assert(t[x].0 == k);
            } else {
                assert forall|x: int| 0 <= x < t.len() implies #[trigger] t[x].0 != k by {
                    assert(t[x].0 == s[x].0 || x == j);
                }
            }
        }
    }
}

/// Removing an entry keeps the keys distinct and unmaps its key alone.
pub proof fn lemma_obj_remove(s: Seq<(Seq<char>, Json)>, j: int)
    requires
        distinct_keys(s),
        0 <= j < s.len(),
    ensures
        distinct_keys(s.remove(j)),
        forall|k: Seq<char>|
            #[trigger] obj_get(s.remove(j), k) == if k == s[j].0 {
                None
            } else {
                obj_get(s, k)
            },
{
    let t = s.remove(j);
    assert forall|x: int| 0 <= x < t.len() implies #[trigger] t[x] == s[if x < j {
        x
    } else {
        x + 1
    }] by {}
    assert(distinct_keys(t)) by {
        assert forall|a: int, b: int|
            0 <= a < t.len() && 0 <= b < t.len() && a != b implies #[trigger] t[a].0 != #[trigger] t[b].0 by {
            let a1 = if a < j {
                a
            } else {
                a + 1
            };
            let b1 = if b < j {
                b
            } else {
                b + 1
            };
            assert(t[a] == s[a1]);
            assert(t[b] == s[b1]);
        }
    }
    assert forall|k: Seq<char>| #[trigger]
        obj_get(t, k) == if k == s[j].0 {
            None
        } else {
            obj_get(s, k)
        } by {
        lemma_obj_get(s, k);
        lemma_obj_get(t, k);
        if k == s[j].0 {
            assert forall|x: int| 0 <= x < t.len() implies #[trigger] t[x].0 != k by {
                let x1 = if x < j {
                    x
                } else {
                    x + 1
                };
                assert(t[x] == s[x1]);
            }
        } else {
            if exists|x: int| 0 <= x < s.len() && #[trigger] s[x].0 == k {
                let x = choose|x: int| 0 <= x < s.len() && #[trigger] s[x].0 == k;
                assert(x != j);
                let x1 = if x < j {
                    x
                } else {
                    x - 1
                };
                assert(t[x1] == s[x]);
            } else {
                assert forall|x: int| 0 <= x < t.len() implies #[trigger] t[x].0 != k by {
                    let x1 = if x < j {
                        x
                    } else {
                        x + 1
                    };
                    assert(t[x] == s[x1]);
                }
            }
        }
    }
}

/// Appending an entry with a new key keeps the keys distinct and maps that
/// key alone.
pub proof fn lemma_obj_push(s: Seq<(Seq<char>, Json)>, k0: Seq<char>, v: Json)
    requires
        distinct_keys(s),
        obj_get(s, k0) is None,
    ensures
        distinct_keys(s.push((k0, v))),
        forall|k: Seq<char>|
            #[trigger] obj_get(s.push((k0, v)), k) == if k == k0 {
                Some(v)
            } else {
                obj_get(s, k)
            },
{
    let t = s.push((k0, v));
    lemma_obj_get(s, k0);
    assert forall|x: int| 0 <= x < s.len() implies #[trigger] s[x].0 != k0 by {
        if s[x].0 == k0 {
            assert(obj_get(s, k0) == Some(s[x].1));
        }
    }
    assert(distinct_keys(t)) by {
        assert forall|a: int, b: int|
            0 <= a < t.len() && 0 <= b < t.len() && a != b implies #[trigger] t[a].0 != #[trigger] t[b].0 by {
            if a < s.len() {
                assert(t[a] == s[a]);
            }
            if b < s.len() {
                assert(t[b] == s[b]);
            }
        }
    }
    assert forall|k: Seq<char>| #[trigger]
        obj_get(t, k) == if k == k0 {
            Some(v)
        } else {
            obj_get(s, k)
        } by {
        lemma_obj_get(s, k);
        lemma_obj_get(t, k);
        if k == k0 {
            assert(t[s.len() as int].0 == k);
        } else {
            if exists|x: int| 0 <= x < s.len() && #[trigger] s[x].0 == k {
                let x = choose|x: int| 0 <= x < s.len() && #[trigger] s[x].0 == k;
                assert(t[x] == s[x]);
            } else {
                assert forall|x: int| 0 <= x < t.len() implies #[trigger] t[x].0 != k by {
                    if x < s.len() {
                        assert(t[x] == s[x]);
                    }
                }
            }
        }
    }
}

/// An entry list without repeated keys keeps that property in any subrange.
proof fn lemma_distinct_subrange(s: Seq<(Seq<char>, Json)>, i: int)
    requires
        distinct_keys(s),
        0 <= i <= s.len(),
    ensures
        distinct_keys(s.subrange(i, s.len() as int)),
{
    let t = s.subrange(i, s.len() as int);
    assert forall|a: int, b: int|
        0 <= a < t.len() && 0 <= b < t.len() && a != b implies #[trigger] t[a].0 != #[trigger] t[b].0 by {
        assert(t[a] == s[a + i]);
        assert(t[b] == s[b + i]);
    }
}

/// Dropping the first overlay entry changes what its key alone maps to.
proof fn lemma_obj_get_tail(o: Seq<(Seq<char>, Json)>, i: int, k: Seq<char>)
    requires
        distinct_keys(o),
        0 <= i < o.len(),
    ensures
        obj_get(o.subrange(i, o.len() as int), k) == if k == o[i].0 {
            Some(o[i].1)
        } else {
            obj_get(o.subrange(i + 1, o.len() as int), k)
        },
        k == o[i].0 ==> obj_get(o.subrange(i + 1, o.len() as int), k) is None,
{
    let t0 = o.subrange(i, o.len() as int);
    let t1 = o.subrange(i + 1, o.len() as int);
    lemma_distinct_subrange(o, i);
    lemma_distinct_subrange(o, i + 1);
    lemma_obj_get(t0, k);
    lemma_obj_get(t1, k);
    assert(t0[0] == o[i]);
    if k == o[i].0 {
        assert forall|x: int| 0 <= x < t1.len() implies #[trigger] t1[x].0 != k by {
            assert(t1[x] == o[x + i + 1]);
        }
    } else {
        if exists|x: int| 0 <= x < t1.len() && #[trigger] t1[x].0 == k {
            let x = choose|x: int| 0 <= x < t1.len() && #[trigger] t1[x].0 == k;
            assert(t1[x] == t0[x + 1]);
        } else {
            assert forall|x: int| 0 <= x < t0.len() implies #[trigger] t0[x].0 != k by {
                if x > 0 {
                    assert(t0[x] == t1[x - 1]);
                }
            }
        }
    }
}

/// A merge is null exactly when the overlay is.
pub proof fn lemma_merge_null(base: Json, overlay: Json, key: Seq<char>)
    ensures
        (merge(base, overlay, key) is Null) == (overlay is Null),
{
    lemma_without_null_keys_null(overlay);
}

/// Folding overlay entries from index `i` on: each key maps to what
/// [`merged_lookup`] gives for what it mapped to before and what the rest of
/// the overlay maps it to, and no key is repeated.
proof fn lemma_entries_lookup(
    acc: Seq<(Seq<char>, Json)>,
    o: Seq<(Seq<char>, Json)>,
    key: Seq<char>,
    i: int,
)
    requires
        distinct_keys(acc),
        distinct_keys(o),
        0 <= i <= o.len(),
    ensures
        distinct_keys(merge_entries(acc, o, key, i)),
        forall|k: Seq<char>|
            #[trigger] obj_get(merge_entries(acc, o, key, i), k) == merged_lookup(
                obj_get(acc, k),
                obj_get(o.subrange(i, o.len() as int), k),
                key,
            ),
    decreases o.len() - i,
{
    if i == o.len() {
        assert forall|k: Seq<char>| #[trigger]
            obj_get(merge_entries(acc, o, key, i), k) == merged_lookup(
                obj_get(acc, k),
                obj_get(o.subrange(i, o.len() as int), k),
                key,
            ) by {
            assert(o.subrange(i, o.len() as int).len() == 0);
        }
    } else {
        let k0 = o[i].0;
        let ov = o[i].1;
        let j = find_entry(acc, k0);
        lemma_find_entry(acc, k0);
        lemma_obj_get(acc, k0);
        let next = if j >= 0 {
            let m = merge(acc[j].1, ov, key);
            if m is Null {
                acc.remove(j)
            } else {
                acc.update(j, (k0, m))
            }
        } else if ov is Null {
            acc
        } else {
            acc.push((k0, without_null_keys(ov)))
        };
        assert(merge_entries(acc, o, key, i) == merge_entries(next, o, key, i + 1));
        // One step changes what `k0` alone maps to.
        assert(distinct_keys(next) && forall|k: Seq<char>|
            #[trigger] obj_get(next, k) == if k == k0 {
                merged_lookup(obj_get(acc, k0), Some(ov), key)
            } else {
                obj_get(acc, k)
            }) by {
            if j >= 0 {
                assert(obj_get(acc, k0) == Some(acc[j].1));
                lemma_merge_null(acc[j].1, ov, key);
                if ov is Null {
                    lemma_obj_remove(acc, j);
                } else {
                    lemma_obj_update(acc, j, merge(acc[j].1, ov, key));
                }
            } else {
                assert(obj_get(acc, k0) is None);
                if !(ov is Null) {
                    lemma_obj_push(acc, k0, without_null_keys(ov));
                }
            }
        }
        lemma_entries_lookup(next, o, key, i + 1);
        assert forall|k: Seq<char>| #[trigger]
            obj_get(merge_entries(acc, o, key, i), k) == merged_lookup(
                obj_get(acc, k),
                obj_get(o.subrange(i, o.len() as int), k),
                key,
            ) by {
            lemma_obj_get_tail(o, i, k);
        }
    }
}

/// The unmatched base items are base items.
proof fn lemma_unmatched_wf(base: Seq<Json>, overlay: Seq<Json>, key: Seq<char>, n: int)
    requires
        wf_items(base),
        n <= base.len(),
    ensures
        wf_items(unmatched(base, overlay, key, n)),
    decreases n,
{
    if n > 0 {
        lemma_unmatched_wf(base, overlay, key, n - 1);
        let u = unmatched(base, overlay, key, n - 1);
        lemma_wf_items(base);
        lemma_wf_items(u);
        lemma_wf_items(u.push(base[n - 1]));
        if !is_matched(base, overlay, key, n - 1) {
            assert forall|x: int| 0 <= x < u.len() + 1 implies #[trigger] wf(u.push(base[n - 1])[x]) by {
                if x < u.len() {
                    assert(u.push(base[n - 1])[x] == u[x]);
                }
            }
        }
    }
}

/// Merging well-formed documents gives a well-formed document.
proof fn lemma_merge_wf(base: Json, overlay: Json, key: Seq<char>)
    requires
        wf(base),
        wf(overlay),
    ensures
        wf(merge(base, overlay, key)),
    decreases overlay, 1int,
{
    lemma_without_null_keys(overlay);
    match overlay {
        Json::Object(o) => match base {
            Json::Object(b) => {
                lemma_entries_wf(b, o, key, 0);
            },
            _ => {},
        },
        Json::Array(o) => match base {
            Json::Array(b) => {
                lemma_items_wf(b, o, key);
            },
            _ => {},
        },
        _ => {},
    }
}

proof fn lemma_entries_wf(
    acc: Seq<(Seq<char>, Json)>,
    o: Seq<(Seq<char>, Json)>,
    key: Seq<char>,
    i: int,
)
    requires
        distinct_keys(acc),
        wf_entries(acc),
        distinct_keys(o),
        wf_entries(o),
        0 <= i <= o.len(),
    ensures
        distinct_keys(merge_entries(acc, o, key, i)),
        wf_entries(merge_entries(acc, o, key, i)),
    decreases o, o.len() - i,
{
    if i < o.len() {
        let k0 = o[i].0;
        let ov = o[i].1;
        let j = find_entry(acc, k0);
        lemma_find_entry(acc, k0);
        lemma_wf_entries(acc);
        lemma_wf_entries(o);
        assert(wf(ov));
        if j >= 0 {
            let m = merge(acc[j].1, ov, key);
            assert(wf(acc[j].1));
            assert(decreases_to!(o => o[i]));
            lemma_merge_wf(acc[j].1, ov, key);
            lemma_merge_null(acc[j].1, ov, key);
            if m is Null {
                let next = acc.remove(j);
                lemma_wf_entries(next);
                lemma_obj_remove(acc, j);
                assert forall|x: int| 0 <= x < next.len() implies #[trigger] wf(next[x].1) by {
                    if x < j {
                        assert(next[x] == acc[x]);
                    } else {
                        assert(next[x] == acc[x + 1]);
                    }
                }
                lemma_entries_wf(next, o, key, i + 1);
            } else {
                let next = acc.update(j, (k0, m));
                lemma_wf_entries(next);
                lemma_obj_update(acc, j, m);
                assert forall|x: int| 0 <= x < next.len() implies #[trigger] wf(next[x].1) by {
                    if x != j {
                        assert(next[x] == acc[x]);
                    }
                }
                lemma_entries_wf(next, o, key, i + 1);
            }
        } else {
            lemma_obj_get(acc, k0);
            if ov is Null {
                lemma_entries_wf(acc, o, key, i + 1);
            } else {
                let next = acc.push((k0, without_null_keys(ov)));
                lemma_wf_entries(next);
                lemma_without_null_keys(ov);
                lemma_obj_push(acc, k0, without_null_keys(ov));
                assert forall|x: int| 0 <= x < next.len() implies #[trigger] wf(next[x].1) by {
                    if x < acc.len() {
                        assert(next[x] == acc[x]);
                    }
                }
                lemma_entries_wf(next, o, key, i + 1);
            }
        }
    }
}

proof fn lemma_items_wf(base: Seq<Json>, overlay: Seq<Json>, key: Seq<char>)
    requires
        wf_items(base),
        wf_items(overlay),
    ensures
        wf_items(merge_items(base, overlay, key)),
    decreases overlay, 0int,
{
    lemma_wf_items(base);
    lemma_wf_items(overlay);
    lemma_wf_items(merge_items(base, overlay, key));
    lemma_without_null_keys(Json::Array(overlay));
    if smart_merged(base, overlay, key) {
        let r = merge_items(base, overlay, key);
        let tail = unmatched(base, overlay, key, base.len() as int);
        lemma_unmatched_wf(base, overlay, key, base.len() as int);
        lemma_wf_items(tail);
        assert(r.len() == overlay.len() + tail.len());
        assert forall|i: int| 0 <= i < r.len() implies #[trigger] wf(r[i]) by {
            if i < overlay.len() {
                assert(r[i] == merge_item(base, overlay[i], key));
                assert(wf(overlay[i]));
                assert(decreases_to!(overlay => overlay[i]));
                lemma_item_wf(base, overlay[i], key);
            } else {
                assert(r[i] == tail[i - overlay.len()]);
            }
        }
    }
}

proof fn lemma_item_wf(base: Seq<Json>, item: Json, key: Seq<char>)
    requires
        wf_items(base),
        wf(item),
    ensures
        wf(merge_item(base, item, key)),
    decreases item, 2int,
{
    let j = match_index(base, item, key);
    lemma_wf_items(base);
    lemma_without_null_keys(item);
    if 0 <= j < base.len() {
        assert(wf(base[j]));
        lemma_merge_wf(base[j], item, key);
    }
}

// ---------------------------------------------------------------------------
// Laws
// ---------------------------------------------------------------------------

/// Object merge: merging two well-formed objects gives a well-formed object
/// in which every key maps to what [`merged_lookup`] says. A key only in the
/// base keeps its value; a key only in the overlay is added unless its value
/// is null; a key in both maps to the deep merge of its two values, and is
/// removed when the overlay value is null.
pub proof fn law_object_merge(base: Json, overlay: Json, key: Seq<char>)
    requires
        base is Object,
        overlay is Object,
        wf(base),
        wf(overlay),
    ensures
        merge(base, overlay, key) is Object,
        wf(merge(base, overlay, key)),
        forall|k: Seq<char>|
            #[trigger] obj_get(merge(base, overlay, key)->Object_0, k) == merged_lookup(
                obj_get(base->Object_0, k),
                obj_get(overlay->Object_0, k),
                key,
            ),
{
    let b = base->Object_0;
    let o = overlay->Object_0;
    lemma_entries_lookup(b, o, key, 0);
    assert(o.subrange(0, o.len() as int) =~= o);
    lemma_merge_wf(base, overlay, key);
}

/// Null removal: a key that the overlay object maps to null is absent from
/// the merged object.
pub proof fn law_null_removes_key(base: Json, overlay: Json, key: Seq<char>, k: Seq<char>)
    requires
        base is Object,
        overlay is Object,
        wf(base),
        wf(overlay),
        obj_get(overlay->Object_0, k) == Some(Json::Null),
    ensures
        obj_get(merge(base, overlay, key)->Object_0, k) is None,
{
    law_object_merge(base, overlay, key);
}

/// Merging well-formed documents gives a well-formed document: no object of
/// the result repeats a key.
pub proof fn law_merge_preserves_wf(base: Json, overlay: Json, key: Seq<char>)
    requires
        wf(base),
        wf(overlay),
    ensures
        wf(merge(base, overlay, key)),
{
    lemma_merge_wf(base, overlay, key);
}

/// Type conflicts: unless both documents are objects or both are arrays, the
/// overlay wins, without the keys it binds to null; a scalar or null overlay
/// wins as it is.
pub proof fn law_overlay_wins(base: Json, overlay: Json, key: Seq<char>)
    requires
        !(base is Object && overlay is Object),
        !(base is Array && overlay is Array),
    ensures
        merge(base, overlay, key) == without_null_keys(overlay),
        !(overlay is Object) && !(overlay is Array) ==> merge(base, overlay, key) == overlay,
{
}

/// An empty overlay object leaves the base object as it is.
pub proof fn law_empty_overlay_keeps_base(base: Seq<(Seq<char>, Json)>, key: Seq<char>)
    ensures
        merge(Json::Object(base), Json::Object(Seq::empty()), key) == Json::Object(base),
{
}

/// Arrays whose items have no key value are replaced by the overlay array,
/// without the keys its items bind to null; an overlay array of strings,
/// numbers, booleans and nulls replaces the base as it is.
pub proof fn law_primitive_arrays_replaced(base: Seq<Json>, overlay: Seq<Json>, key: Seq<char>)
    requires
        forall|i: int| 0 <= i < base.len() ==> #[trigger] key_value(base[i], key) is None,
        forall|i: int| 0 <= i < overlay.len() ==> #[trigger] key_value(overlay[i], key) is None,
    ensures
        merge(Json::Array(base), Json::Array(overlay), key) == Json::Array(
            items_without_null_keys(overlay),
        ),
        (forall|i: int|
            0 <= i < overlay.len() ==> !(#[trigger] overlay[i] is Object) && !(overlay[i] is Array))
            ==> merge(Json::Array(base), Json::Array(overlay), key) == Json::Array(overlay),
{
    if forall|i: int|
        0 <= i < overlay.len() ==> !(#[trigger] overlay[i] is Object) && !(overlay[i] is Array) {
        assert(items_without_null_keys(overlay) =~= overlay);
    }
}

/// The last match of a key value lies within the items and has that key value.
pub proof fn lemma_last_match(items: Seq<Json>, key: Seq<char>, k: Seq<char>)
    ensures
        -1 <= last_match(items, key, k) < items.len(),
        last_match(items, key, k) >= 0 ==> key_value(items[last_match(items, key, k)], key) == Some(
            k,
        ),
        forall|j: int|
            last_match(items, key, k) < j < items.len() ==> #[trigger] key_value(items[j], key)
                != Some(k),
    decreases items.len(),
{
    if items.len() > 0 && key_value(items.last(), key) != Some(k) {
        lemma_last_match(items.drop_last(), key, k);
        assert forall|j: int| last_match(items, key, k) < j < items.len() implies #[trigger] key_value(
            items[j],
            key,
        ) != Some(k) by {
            if j < items.len() - 1 {
                assert(items.drop_last()[j] == items[j]);
            }
        }
    }
}

/// Where an unmatched base item stands among the unmatched items.
proof fn lemma_unmatched_position(base: Seq<Json>, overlay: Seq<Json>, key: Seq<char>, n: int, j: int)
    requires
        0 <= j < n <= base.len(),
    ensures
        unmatched(base, overlay, key, j).len() <= unmatched(base, overlay, key, n).len(),
        !is_matched(base, overlay, key, j) ==> unmatched(base, overlay, key, j).len() < unmatched(
            base,
            overlay,
            key,
            n,
        ).len() && unmatched(base, overlay, key, n)[unmatched(base, overlay, key, j).len() as int]
            == base[j],
    decreases n,
{
    let u = unmatched(base, overlay, key, n - 1);
    if j < n - 1 {
        lemma_unmatched_position(base, overlay, key, n - 1, j);
        if !is_matched(base, overlay, key, n - 1) {
            assert(unmatched(base, overlay, key, n) == u.push(base[n - 1]));
        }
    } else {
        if !is_matched(base, overlay, key, n - 1) {
            assert(unmatched(base, overlay, key, n) == u.push(base[n - 1]));
        }
    }
}

/// Smart array merge: when some item of either array has a key value, the
/// result lists the overlay items in order, each deep-merged with the last
/// base item of the same key value when there is one and, when there is
/// none, kept without the keys it binds to null; then every base item that
/// no overlay item matched, in base order.
pub proof fn law_smart_array_merge(base: Seq<Json>, overlay: Seq<Json>, key: Seq<char>)
    requires
        smart_merged(base, overlay, key),
    ensures
        ({
            let r = merge(Json::Array(base), Json::Array(overlay), key)->Array_0;
            let tail = unmatched(base, overlay, key, base.len() as int);
            &&& merge(Json::Array(base), Json::Array(overlay), key) is Array
            &&& r.len() == overlay.len() + tail.len()
            &&& forall|i: int|
                0 <= i < overlay.len() ==> {
                    let j = #[trigger] match_index(base, overlay[i], key);
                    &&& -1 <= j < base.len()
                    &&& j < 0 ==> r[i] == without_null_keys(overlay[i])
                    &&& j >= 0 ==> r[i] == merge(base[j], overlay[i], key)
                }
            &&& forall|j: int|
                0 <= j < base.len() && !is_matched(base, overlay, key, j) ==> r[(overlay.len()
                    + #[trigger] unmatched(base, overlay, key, j).len()) as int] == base[j]
            &&& forall|j1: int, j2: int|
                0 <= j1 < j2 < base.len() ==> #[trigger] unmatched(base, overlay, key, j1).len()
                    <= #[trigger] unmatched(base, overlay, key, j2).len()
        }),
{
    let r = merge(Json::Array(base), Json::Array(overlay), key)->Array_0;
    let tail = unmatched(base, overlay, key, base.len() as int);
    assert(r == merge_items(base, overlay, key));
    assert forall|i: int| 0 <= i < overlay.len() implies {
        let j = #[trigger] match_index(base, overlay[i], key);
        &&& -1 <= j < base.len()
        &&& j < 0 ==> r[i] == without_null_keys(overlay[i])
        &&& j >= 0 ==> r[i] == merge(base[j], overlay[i], key)
    } by {
        assert(r[i] == merge_item(base, overlay[i], key));
        match key_value(overlay[i], key) {
            Some(k) => lemma_last_match(base, key, k),
            None => {},
        }
    }
    assert forall|j: int|
        0 <= j < base.len() && !is_matched(base, overlay, key, j) implies r[(overlay.len()
        + #[trigger] unmatched(base, overlay, key, j).len()) as int] == base[j] by {
        lemma_unmatched_position(base, overlay, key, base.len() as int, j);
    }
    assert forall|j1: int, j2: int| 0 <= j1 < j2 < base.len() implies #[trigger] unmatched(
        base,
        overlay,
        key,
        j1,
    ).len() <= #[trigger] unmatched(base, overlay, key, j2).len() by {
        lemma_unmatched_position(base, overlay, key, j2, j1);
    }
}

/// No documents merge to the empty object; one document merges to itself.
pub proof fn law_merge_all_base_cases(v: Json, key: Seq<char>)
    ensures
        merge_all_spec(Seq::empty(), key) == Json::Object(Seq::empty()),
        merge_all_spec(seq![v], key) == v,
{
}

/// Priority order: merging one more document merges it onto the merge of the
/// earlier ones.
pub proof fn law_merge_all_fold(values: Seq<Json>, v: Json, key: Seq<char>)
    requires
        values.len() >= 1,
    ensures
        merge_all_spec(values.push(v), key) == merge(merge_all_spec(values, key), v, key),
{
    assert(values.push(v).drop_last() =~= values);
}

/// The merge of well-formed objects is a well-formed object.
pub proof fn law_merge_all_objects(values: Seq<Json>, key: Seq<char>)
    requires
        values.len() >= 1,
        forall|i: int| 0 <= i < values.len() ==> #[trigger] values[i] is Object && wf(values[i]),
    ensures
        merge_all_spec(values, key) is Object,
        wf(merge_all_spec(values, key)),
    decreases values.len(),
{
    if values.len() > 1 {
        let d = values.drop_last();
        assert forall|i: int| 0 <= i < d.len() implies #[trigger] d[i] is Object && wf(d[i]) by {
            assert(d[i] == values[i]);
        }
        law_merge_all_objects(d, key);
        assert(values.last() == values[values.len() - 1]);
        law_object_merge(merge_all_spec(d, key), values.last(), key);
    }
}

/// Later sources override earlier ones: when the last of several objects maps
/// a key to a string, number or boolean, the merge maps it to that value; when
/// it maps the key to null, the merge lacks the key.
pub proof fn law_last_source_wins(values: Seq<Json>, key: Seq<char>, k: Seq<char>)
    requires
        values.len() >= 2,
        forall|i: int| 0 <= i < values.len() ==> #[trigger] values[i] is Object && wf(values[i]),
        obj_get(values.last()->Object_0, k) is Some,
    ensures
        merge_all_spec(values, key) is Object,
        ({
            let v = obj_get(values.last()->Object_0, k)->0;
            let got = obj_get(merge_all_spec(values, key)->Object_0, k);
            &&& v is Null ==> got is None
            &&& (v is Bool || v is Number || v is Str) ==> got == Some(v)
        }),
{
    let d = values.drop_last();
    assert forall|i: int| 0 <= i < d.len() implies #[trigger] d[i] is Object && wf(d[i]) by {
        assert(d[i] == values[i]);
    }
    law_merge_all_objects(d, key);
    law_merge_all_objects(values, key);
    assert(values.last() == values[values.len() - 1]);
    law_object_merge(merge_all_spec(d, key), values.last(), key);
}

/// Merging well-formed documents in priority order gives a well-formed
/// document.
pub proof fn law_merge_all_preserves_wf(values: Seq<Json>, key: Seq<char>)
    requires
        forall|i: int| 0 <= i < values.len() ==> #[trigger] wf(values[i]),
    ensures
        wf(merge_all_spec(values, key)),
    decreases values.len(),
{
    if values.len() == 0 {
        assert(distinct_keys(Seq::<(Seq<char>, Json)>::empty()));
        lemma_wf_entries(Seq::<(Seq<char>, Json)>::empty());
    } else if values.len() > 1 {
        let d = values.drop_last();
        assert forall|i: int| 0 <= i < d.len() implies #[trigger] wf(d[i]) by {
            assert(d[i] == values[i]);
        }
        law_merge_all_preserves_wf(d, key);
        assert(values.last() == values[values.len() - 1]);
        lemma_merge_wf(merge_all_spec(d, key), values.last(), key);
    }
}

/// The unmatched base items are base items.
proof fn lemma_unmatched_null_free(base: Seq<Json>, overlay: Seq<Json>, key: Seq<char>, n: int)
    requires
        forall|i: int| 0 <= i < base.len() ==> #[trigger] null_free(base[i]),
        n <= base.len(),
    ensures
        forall|x: int|
            0 <= x < unmatched(base, overlay, key, n).len() ==> #[trigger] null_free(
                unmatched(base, overlay, key, n)[x],
            ),
    decreases n,
{
    if n > 0 {
        lemma_unmatched_null_free(base, overlay, key, n - 1);
        let u = unmatched(base, overlay, key, n - 1);
        if !is_matched(base, overlay, key, n - 1) {
            assert forall|x: int| 0 <= x < u.len() + 1 implies #[trigger] null_free(
                u.push(base[n - 1])[x],
            ) by {
                if x < u.len() {
                    assert(u.push(base[n - 1])[x] == u[x]);
                }
            }
        }
    }
}

/// Merging an overlay onto a base in which no key is bound to null gives a
/// document in which no key is bound to null.
proof fn lemma_merge_null_free(base: Json, overlay: Json, key: Seq<char>)
    requires
        null_free(base),
    ensures
        null_free(merge(base, overlay, key)),
    decreases overlay, 1int,
{
    lemma_without_null_keys(overlay);
    match overlay {
        Json::Object(o) => match base {
            Json::Object(b) => {
                lemma_entries_null_free(b, o, key, 0);
            },
            _ => {},
        },
        Json::Array(o) => match base {
            Json::Array(b) => {
                lemma_items_null_free(b, o, key);
            },
            _ => {},
        },
        _ => {},
    }
}

proof fn lemma_entries_null_free(
    acc: Seq<(Seq<char>, Json)>,
    o: Seq<(Seq<char>, Json)>,
    key: Seq<char>,
    i: int,
)
    requires
        null_free(Json::Object(acc)),
        0 <= i <= o.len(),
    ensures
        null_free(Json::Object(merge_entries(acc, o, key, i))),
    decreases o, o.len() - i,
{
    if i < o.len() {
        let k0 = o[i].0;
        let ov = o[i].1;
        let j = find_entry(acc, k0);
        lemma_find_entry(acc, k0);
        lemma_null_free_entries(acc);
        if j >= 0 {
            let m = merge(acc[j].1, ov, key);
            assert(decreases_to!(o => o[i]));
            lemma_merge_null_free(acc[j].1, ov, key);
            lemma_merge_null(acc[j].1, ov, key);
            if m is Null {
                let next = acc.remove(j);
                lemma_null_free_entries(next);
                assert forall|x: int| 0 <= x < next.len() implies !(#[trigger] next[x].1 is Null)
                    && null_free(next[x].1) by {
                    if x < j {
                        assert(next[x] == acc[x]);
                    } else {
                        assert(next[x] == acc[x + 1]);
                    }
                }
                lemma_entries_null_free(next, o, key, i + 1);
            } else {
                let next = acc.update(j, (k0, m));
                lemma_null_free_entries(next);
                assert forall|x: int| 0 <= x < next.len() implies !(#[trigger] next[x].1 is Null)
                    && null_free(next[x].1) by {
                    if x != j {
                        assert(next[x] == acc[x]);
                    }
                }
                lemma_entries_null_free(next, o, key, i + 1);
            }
        } else {
            if ov is Null {
                lemma_entries_null_free(acc, o, key, i + 1);
            } else {
                let next = acc.push((k0, without_null_keys(ov)));
                lemma_without_null_keys(ov);
                lemma_without_null_keys_null(ov);
                lemma_null_free_entries(next);
                assert forall|x: int| 0 <= x < next.len() implies !(#[trigger] next[x].1 is Null)
                    && null_free(next[x].1) by {
                    if x < acc.len() {
                        assert(next[x] == acc[x]);
                    }
                }
                lemma_entries_null_free(next, o, key, i + 1);
            }
        }
    }
}

proof fn lemma_items_null_free(base: Seq<Json>, overlay: Seq<Json>, key: Seq<char>)
    requires
        null_free(Json::Array(base)),
    ensures
        null_free(Json::Array(merge_items(base, overlay, key))),
    decreases overlay, 0int,
{
    lemma_null_free_items(base);
    lemma_null_free_items(merge_items(base, overlay, key));
    lemma_without_null_keys(Json::Array(overlay));
    if smart_merged(base, overlay, key) {
        let r = merge_items(base, overlay, key);
        let tail = unmatched(base, overlay, key, base.len() as int);
        lemma_unmatched_null_free(base, overlay, key, base.len() as int);
        assert(r.len() == overlay.len() + tail.len());
        assert forall|i: int| 0 <= i < r.len() implies #[trigger] null_free(r[i]) by {
            if i < overlay.len() {
                assert(r[i] == merge_item(base, overlay[i], key));
                assert(decreases_to!(overlay => overlay[i]));
                lemma_item_null_free(base, overlay[i], key);
            } else {
                assert(r[i] == tail[i - overlay.len()]);
            }
        }
    }
}

proof fn lemma_item_null_free(base: Seq<Json>, item: Json, key: Seq<char>)
    requires
        forall|i: int| 0 <= i < base.len() ==> #[trigger] null_free(base[i]),
    ensures
        null_free(merge_item(base, item, key)),
    decreases item, 2int,
{
    let j = match_index(base, item, key);
    lemma_without_null_keys(item);
    if 0 <= j < base.len() {
        assert(null_free(base[j]));
        lemma_merge_null_free(base[j], item, key);
    }
}

/// Null removal at every depth: an overlay never brings a key bound to null
/// into the result. When no key of the base is bound to null, no key of the
/// merge is.
pub proof fn law_merge_adds_no_null_keys(base: Json, overlay: Json, key: Seq<char>)
    requires
        null_free(base),
    ensures
        null_free(merge(base, overlay, key)),
{
    lemma_merge_null_free(base, overlay, key);
}

/// When no key of the first document is bound to null, no key of the merge
/// of all documents is.
pub proof fn law_merge_all_adds_no_null_keys(values: Seq<Json>, key: Seq<char>)
    requires
        values.len() >= 1,
        null_free(values[0]),
    ensures
        null_free(merge_all_spec(values, key)),
    decreases values.len(),
{
    if values.len() > 1 {
        let d = values.drop_last();
        assert(d[0] == values[0]);
        law_merge_all_adds_no_null_keys(d, key);
        lemma_merge_null_free(merge_all_spec(d, key), values.last(), key);
    }
}

/// The unmatched base items are base items.
proof fn lemma_unmatched_numbers(base: Seq<Json>, overlay: Seq<Json>, key: Seq<char>, n: int)
    requires
        forall|i: int| 0 <= i < base.len() ==> #[trigger] numbers_valid(base[i]),
        n <= base.len(),
    ensures
        forall|x: int|
            0 <= x < unmatched(base, overlay, key, n).len() ==> #[trigger] numbers_valid(
                unmatched(base, overlay, key, n)[x],
            ),
    decreases n,
{
    if n > 0 {
        lemma_unmatched_numbers(base, overlay, key, n - 1);
        let u = unmatched(base, overlay, key, n - 1);
        if !is_matched(base, overlay, key, n - 1) {
            assert forall|x: int| 0 <= x < u.len() + 1 implies #[trigger] numbers_valid(
                u.push(base[n - 1])[x],
            ) by {
                if x < u.len() {
                    assert(u.push(base[n - 1])[x] == u[x]);
                }
            }
        }
    }
}

proof fn lemma_merge_numbers(base: Json, overlay: Json, key: Seq<char>)
    requires
        numbers_valid(base),
        numbers_valid(overlay),
    ensures
        numbers_valid(merge(base, overlay, key)),
    decreases overlay, 1int,
{
    lemma_without_null_keys_numbers(overlay);
    match overlay {
        Json::Object(o) => match base {
            Json::Object(b) => {
                lemma_entries_numbers(b, o, key, 0);
            },
            _ => {},
        },
        Json::Array(o) => match base {
            Json::Array(b) => {
                lemma_items_numbers(b, o, key);
            },
            _ => {},
        },
        _ => {},
    }
}

proof fn lemma_entries_numbers(
    acc: Seq<(Seq<char>, Json)>,
    o: Seq<(Seq<char>, Json)>,
    key: Seq<char>,
    i: int,
)
    requires
        numbers_valid(Json::Object(acc)),
        numbers_valid(Json::Object(o)),
        0 <= i <= o.len(),
    ensures
        numbers_valid(Json::Object(merge_entries(acc, o, key, i))),
    decreases o, o.len() - i,
{
    if i < o.len() {
        let k0 = o[i].0;
        let ov = o[i].1;
        let j = find_entry(acc, k0);
        lemma_find_entry(acc, k0);
        lemma_numbers_valid_entries(acc);
        lemma_numbers_valid_entries(o);
        assert(numbers_valid(ov));
        if j >= 0 {
            let m = merge(acc[j].1, ov, key);
            assert(decreases_to!(o => o[i]));
            lemma_merge_numbers(acc[j].1, ov, key);
            if m is Null {
                let next = acc.remove(j);
                lemma_numbers_valid_entries(next);
                assert forall|x: int| 0 <= x < next.len() implies #[trigger] numbers_valid(
                    next[x].1,
                ) by {
                    if x < j {
                        assert(next[x] == acc[x]);
                    } else {
                        assert(next[x] == acc[x + 1]);
                    }
                }
                lemma_entries_numbers(next, o, key, i + 1);
            } else {
                let next = acc.update(j, (k0, m));
                lemma_numbers_valid_entries(next);
                assert forall|x: int| 0 <= x < next.len() implies #[trigger] numbers_valid(
                    next[x].1,
                ) by {
                    if x != j {
                        assert(next[x] == acc[x]);
                    }
                }
                lemma_entries_numbers(next, o, key, i + 1);
            }
        } else {
            if ov is Null {
                lemma_entries_numbers(acc, o, key, i + 1);
            } else {
                let next = acc.push((k0, without_null_keys(ov)));
                lemma_without_null_keys_numbers(ov);
                lemma_numbers_valid_entries(next);
                assert forall|x: int| 0 <= x < next.len() implies #[trigger] numbers_valid(
                    next[x].1,
                ) by {
                    if x < acc.len() {
                        assert(next[x] == acc[x]);
                    }
                }
                lemma_entries_numbers(next, o, key, i + 1);
            }
        }
    }
}

proof fn lemma_items_numbers(base: Seq<Json>, overlay: Seq<Json>, key: Seq<char>)
    requires
        numbers_valid(Json::Array(base)),
        numbers_valid(Json::Array(overlay)),
    ensures
        numbers_valid(Json::Array(merge_items(base, overlay, key))),
    decreases overlay, 0int,
{
    lemma_numbers_valid_items(base);
    lemma_numbers_valid_items(overlay);
    lemma_numbers_valid_items(merge_items(base, overlay, key));
    lemma_without_null_keys_numbers(Json::Array(overlay));
    if smart_merged(base, overlay, key) {
        let r = merge_items(base, overlay, key);
        let tail = unmatched(base, overlay, key, base.len() as int);
        lemma_unmatched_numbers(base, overlay, key, base.len() as int);
        assert(r.len() == overlay.len() + tail.len());
        assert forall|i: int| 0 <= i < r.len() implies #[trigger] numbers_valid(r[i]) by {
            if i < overlay.len() {
                assert(r[i] == merge_item(base, overlay[i], key));
                assert(numbers_valid(overlay[i]));
                assert(decreases_to!(overlay => overlay[i]));
                lemma_item_numbers(base, overlay[i], key);
            } else {
                assert(r[i] == tail[i - overlay.len()]);
            }
        }
    }
}

proof fn lemma_item_numbers(base: Seq<Json>, item: Json, key: Seq<char>)
    requires
        forall|i: int| 0 <= i < base.len() ==> #[trigger] numbers_valid(base[i]),
        numbers_valid(item),
    ensures
        numbers_valid(merge_item(base, item, key)),
    decreases item, 2int,
{
    let j = match_index(base, item, key);
    lemma_without_null_keys_numbers(item);
    if 0 <= j < base.len() {
        assert(numbers_valid(base[j]));
        lemma_merge_numbers(base[j], item, key);
    }
}

/// A merge holds only numbers of its two documents: when every number of
/// both reads back as a number, every number of the merge does.
pub proof fn law_merge_keeps_numbers_valid(base: Json, overlay: Json, key: Seq<char>)
    requires
        numbers_valid(base),
        numbers_valid(overlay),
    ensures
        numbers_valid(merge(base, overlay, key)),
{
    lemma_merge_numbers(base, overlay, key);
}

/// When every number of every document reads back as a number, every number
/// of their merge does.
pub proof fn law_merge_all_keeps_numbers_valid(values: Seq<Json>, key: Seq<char>)
    requires
        forall|i: int| 0 <= i < values.len() ==> #[trigger] numbers_valid(values[i]),
    ensures
        numbers_valid(merge_all_spec(values, key)),
    decreases values.len(),
{
    if values.len() == 0 {
        lemma_numbers_valid_entries(Seq::<(Seq<char>, Json)>::empty());
    } else if values.len() > 1 {
        let d = values.drop_last();
        assert forall|i: int| 0 <= i < d.len() implies #[trigger] numbers_valid(d[i]) by {
            assert(d[i] == values[i]);
        }
        law_merge_all_keeps_numbers_valid(d, key);
        assert(values.last() == values[values.len() - 1]);
        lemma_merge_numbers(merge_all_spec(d, key), values.last(), key);
    }
}

/// Indices of the base items among the first `n` that no overlay item
/// matched, in order.
spec fn unmatched_indices(base: Seq<Json>, overlay: Seq<Json>, key: Seq<char>, n: int) -> Seq<int>
    decreases n,
{
    if n <= 0 {
        Seq::empty()
    } else if is_matched(base, overlay, key, n - 1) {
        unmatched_indices(base, overlay, key, n - 1)
    } else {
        unmatched_indices(base, overlay, key, n - 1).push(n - 1)
    }
}

proof fn lemma_unmatched_indices(base: Seq<Json>, overlay: Seq<Json>, key: Seq<char>, n: int)
    requires
        0 <= n <= base.len(),
    ensures
        ({
            let u = unmatched(base, overlay, key, n);
            let idx = unmatched_indices(base, overlay, key, n);
            &&& idx.len() == u.len()
            &&& forall|t: int|
                0 <= t < idx.len() ==> 0 <= #[trigger] idx[t] < n && u[t] == base[idx[t]]
                    && !is_matched(base, overlay, key, idx[t])
            &&& forall|t1: int, t2: int|
                0 <= t1 < t2 < idx.len() ==> #[trigger] idx[t1] < #[trigger] idx[t2]
            &&& forall|j: int|
                0 <= j < n && !is_matched(base, overlay, key, j) ==> exists|t: int|
                    0 <= t < idx.len() && #[trigger] idx[t] == j
        }),
    decreases n,
{
    if n > 0 {
        lemma_unmatched_indices(base, overlay, key, n - 1);
        let u0 = unmatched(base, overlay, key, n - 1);
        let i0 = unmatched_indices(base, overlay, key, n - 1);
        if !is_matched(base, overlay, key, n - 1) {
            let u = u0.push(base[n - 1]);
            let idx = i0.push(n - 1);
            assert(unmatched(base, overlay, key, n) == u);
            assert(unmatched_indices(base, overlay, key, n) == idx);
            assert forall|t: int| 0 <= t < idx.len() implies 0 <= #[trigger] idx[t] < n && u[t]
                == base[idx[t]] && !is_matched(base, overlay, key, idx[t]) by {
                if t < i0.len() {
                    assert(idx[t] == i0[t]);
                    assert(u[t] == u0[t]);
                }
            }
            assert forall|t1: int, t2: int| 0 <= t1 < t2 < idx.len() implies #[trigger] idx[t1]
                < #[trigger] idx[t2] by {
                assert(idx[t1] == i0[t1]);
                if t2 < i0.len() {
                    assert(idx[t2] == i0[t2]);
                }
            }
            assert forall|j: int| 0 <= j < n && !is_matched(base, overlay, key, j) implies exists|
                t: int,
            | 0 <= t < idx.len() && #[trigger] idx[t] == j by {
                if j < n - 1 {
                    let t = choose|t: int| 0 <= t < i0.len() && #[trigger] i0[t] == j;
                    assert(idx[t] == i0[t]);
                } else {
                    assert(idx[i0.len() as int] == j);
                }
            }
        }
    }
}

/// Smart array merge keeps exactly the unmatched base items: after the
/// overlay items, the result lists, in base order, the base items that no
/// overlay item is merged with, and no other item. A base item that some
/// overlay item matches does not appear after the overlay items.
pub proof fn law_smart_array_merge_tail(base: Seq<Json>, overlay: Seq<Json>, key: Seq<char>)
    requires
        smart_merged(base, overlay, key),
    ensures
        ({
            let r = merge(Json::Array(base), Json::Array(overlay), key)->Array_0;
            exists|idx: Seq<int>|
                {
                    &&& r.len() == overlay.len() + idx.len()
                    &&& forall|t: int|
                        0 <= t < idx.len() ==> {
                            &&& 0 <= #[trigger] idx[t] < base.len()
                            &&& r[overlay.len() + t] == base[idx[t]]
                            &&& forall|i: int|
                                0 <= i < overlay.len() ==> #[trigger] match_index(
                                    base,
                                    overlay[i],
                                    key,
                                ) != idx[t]
                        }
                    &&& forall|t1: int, t2: int|
                        0 <= t1 < t2 < idx.len() ==> #[trigger] idx[t1] < #[trigger] idx[t2]
                    &&& forall|j: int|
                        0 <= j < base.len() && (forall|i: int|
                            0 <= i < overlay.len() ==> #[trigger] match_index(base, overlay[i], key)
                                != j) ==> #[trigger] idx.contains(j)
                }
        }),
{
    let r = merge(Json::Array(base), Json::Array(overlay), key)->Array_0;
    let u = unmatched(base, overlay, key, base.len() as int);
    let idx = unmatched_indices(base, overlay, key, base.len() as int);
    lemma_unmatched_indices(base, overlay, key, base.len() as int);
    assert(r == merge_items(base, overlay, key));
    assert(r.len() == overlay.len() + idx.len());
    assert forall|t: int| 0 <= t < idx.len() implies {
        &&& 0 <= #[trigger] idx[t] < base.len()
        &&& r[overlay.len() + t] == base[idx[t]]
        &&& forall|i: int|
            0 <= i < overlay.len() ==> #[trigger] match_index(base, overlay[i], key) != idx[t]
    } by {
        assert(r[overlay.len() + t] == u[t]);
        assert(!is_matched(base, overlay, key, idx[t]));
    }
    assert forall|j: int|
        0 <= j < base.len() && (forall|i: int|
            0 <= i < overlay.len() ==> #[trigger] match_index(base, overlay[i], key) != j) implies #[trigger] idx.contains(j) by {
        assert(!is_matched(base, overlay, key, j));
        let t = choose|t: int| 0 <= t < idx.len() && #[trigger] idx[t] == j;
        assert(idx[t] == j);
    }
}

} // verus!
