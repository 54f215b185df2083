//! Deep merge of configuration documents.
use vstd::prelude::*;

use crate::laws::{
    law_merge_all_keeps_numbers_valid, law_merge_all_preserves_wf, law_merge_keeps_numbers_valid,
    law_merge_preserves_wf,
};
use crate::numbers::numbers_valid;
use crate::nulls::{items_without_null_keys, remove_null_keys, without_null_keys};
use crate::value::{copy_value, entries_model, find_entry, items_model, obj_get, wf, Json, Value};

verus! {

// ---------------------------------------------------------------------------
// Specification
// ---------------------------------------------------------------------------

/// The text by which an array item is matched: the value under `key` when the
/// item is an object and that value is a string, a number or a boolean.
pub open spec fn key_value(item: Json, key: Seq<char>) -> Option<Seq<char>> {
    match item {
        Json::Object(entries) => match obj_get(entries, key) {
            Some(Json::Str(s)) => Some(s),
            Some(Json::Number(n)) => Some(n),
            Some(Json::Bool(b)) => Some(
                if b {
                    "true"@
                } else {
                    "false"@
                },
            ),
            _ => None,
        },
        _ => None,
    }
}

/// Index of the last item whose key value is `k`, or -1 when there is none.
pub open spec fn last_match(items: Seq<Json>, key: Seq<char>, k: Seq<char>) -> int
    decreases items.len(),
{
    if items.len() == 0 {
        -1
    } else if key_value(items.last(), key) == Some(k) {
        items.len() - 1
    } else {
        last_match(items.drop_last(), key, k)
    }
}

/// Index of the base item that an overlay item is merged with, or -1.
pub open spec fn match_index(base: Seq<Json>, item: Json, key: Seq<char>) -> int {
    match key_value(item, key) {
        Some(k) => last_match(base, key, k),
        None => -1,
    }
}

/// Some item of `items` has a key value.
pub open spec fn any_keyed(items: Seq<Json>, key: Seq<char>) -> bool {
    exists|i: int| 0 <= i < items.len() && #[trigger] key_value(items[i], key) is Some
}

/// Arrays are merged item by item when some item of either has a key value.
pub open spec fn smart_merged(base: Seq<Json>, overlay: Seq<Json>, key: Seq<char>) -> bool {
    any_keyed(base, key) || any_keyed(overlay, key)
}

/// Base item `j` is the match of some overlay item.
pub open spec fn is_matched(base: Seq<Json>, overlay: Seq<Json>, key: Seq<char>, j: int) -> bool {
    exists|i: int| 0 <= i < overlay.len() && #[trigger] match_index(base, overlay[i], key) == j
}

/// The base items among the first `n` that no overlay item matched, in order.
pub open spec fn unmatched(base: Seq<Json>, overlay: Seq<Json>, key: Seq<char>, n: int) -> Seq<
    Json,
>
    decreases n,
{
    if n <= 0 {
        Seq::empty()
    } else if is_matched(base, overlay, key, n - 1) {
        unmatched(base, overlay, key, n - 1)
    } else {
        unmatched(base, overlay, key, n - 1).push(base[n - 1])
    }
}

/// Deep merge of `overlay` onto `base`: objects are merged key by key,
/// arrays item by item (see [`merge_items`]), and in every other case the
/// overlay wins. Wherever overlay content is taken over without being merged
/// with base content, the keys it binds to null are removed.
pub open spec fn merge(base: Json, overlay: Json, key: Seq<char>) -> Json
    decreases overlay, 1int,
{
    match overlay {
        Json::Object(o) => match base {
            Json::Object(b) => Json::Object(merge_entries(b, o, key, 0)),
            _ => without_null_keys(overlay),
        },
        Json::Array(o) => match base {
            Json::Array(b) => Json::Array(merge_items(b, o, key)),
            _ => without_null_keys(overlay),
        },
        _ => overlay,
    }
}

/// Folds the overlay entries from index `i` on into the object entries `acc`:
/// an entry whose key is present is replaced by the merge of both values, or
/// removed when that merge is null; an absent key is appended, with the keys
/// its value binds to null removed, unless its value is null.
pub open spec fn merge_entries(
    acc: Seq<(Seq<char>, Json)>,
    o: Seq<(Seq<char>, Json)>,
    key: Seq<char>,
    i: int,
) -> Seq<(Seq<char>, Json)>
    decreases o, o.len() - i,
{
    if i < 0 || i >= o.len() {
        acc
    } else {
        let k = o[i].0;
        let ov = o[i].1;
        let j = find_entry(acc, k);
        let next = if j >= 0 {
            let m = merge(acc[j].1, ov, key);
            if m is Null {
                acc.remove(j)
            } else {
                acc.update(j, (k, m))
            }
        } else if ov is Null {
            acc
        } else {
            acc.push((k, without_null_keys(ov)))
        };
        merge_entries(next, o, key, i + 1)
    }
}

/// An overlay item merged with the base item that matches it; an item
/// without a match, with the keys it binds to null removed.
pub open spec fn merge_item(base: Seq<Json>, item: Json, key: Seq<char>) -> Json
    decreases item, 2int,
{
    let j = match_index(base, item, key);
    if 0 <= j < base.len() {
        merge(base[j], item, key)
    } else {
        without_null_keys(item)
    }
}

/// The overlay items, each merged with its match; then the unmatched base
/// items. When no item of either array has a key value, the overlay items,
/// with the keys they bind to null removed.
pub open spec fn merge_items(base: Seq<Json>, overlay: Seq<Json>, key: Seq<char>) -> Seq<Json>
    decreases overlay, 0int,
{
    if !smart_merged(base, overlay, key) {
        items_without_null_keys(overlay)
    } else {
        Seq::new(
            overlay.len(),
            |i: int|
                if 0 <= i < overlay.len() {
                    merge_item(base, overlay[i], key)
                } else {
                    Json::Null
                },
        ) + unmatched(base, overlay, key, base.len() as int)
    }
}

/// Merge of a list of documents in priority order: the first is the base and
/// each later one is merged onto the result so far. No documents give the
/// empty object.
pub open spec fn merge_all_spec(values: Seq<Json>, key: Seq<char>) -> Json
    decreases values.len(),
{
    if values.len() == 0 {
        Json::Object(Seq::empty())
    } else if values.len() == 1 {
        values[0]
    } else {
        merge(merge_all_spec(values.drop_last(), key), values.last(), key)
    }
}

/// The text of an optional string.
pub open spec fn opt_text(o: Option<String>) -> Option<Seq<char>> {
    match o {
        Some(s) => Some(s@),
        None => None,
    }
}

// ---------------------------------------------------------------------------
// Implementation
// ---------------------------------------------------------------------------

/// The items of `v` in reverse order, so that popping yields them in order.
fn reversed<T>(v: Vec<T>) -> (r: Vec<T>)
    ensures
        r@.len() == v@.len(),
        forall|j: int| 0 <= j < v@.len() ==> #[trigger] r@[j] == v@[v@.len() - 1 - j],
{
    let mut v = v;
    let ghost orig = v@;
    let mut r: Vec<T> = Vec::new();
    while v.len() > 0
        invariant
            v@ == orig.take(orig.len() - r@.len()),
            r@.len() <= orig.len(),
            forall|j: int| 0 <= j < r@.len() ==> #[trigger] r@[j] == orig[orig.len() - 1 - j],
        decreases v@.len(),
    {
        let x = v.pop().unwrap();
        r.push(x);
        assert(v@ =~= orig.take(orig.len() - r@.len()));
    }
    r
}

/// Whether a document is null, which as an overlay value removes its key.
pub fn is_null_removal(value: &Value) -> (r: bool)
    ensures
        r == (value@ is Null),
{
    match value {
        Value::Null => true,
        _ => false,
    }
}

/// Index of the last entry whose key is `key`.
fn find_entry_index(entries: &Vec<(String, Value)>, key: &String) -> (r: Option<usize>)
    ensures
        match r {
            Some(j) => j as int == find_entry(entries_model(entries@), key@) && j < entries@.len(),
            None => find_entry(entries_model(entries@), key@) == -1,
        },
{
    let ghost s = entries_model(entries@);
    let n = entries.len();
    let mut found: Option<usize> = None;
    for i in 0..n
        invariant
            n == entries@.len(),
            s == entries_model(entries@),
            match found {
                Some(j) => j as int == find_entry(s.take(i as int), key@) && j < i,
                None => find_entry(s.take(i as int), key@) == -1,
            },
    {
        assert(s.take(i + 1).drop_last() =~= s.take(i as int));
        if entries[i].0 == *key {
            found = Some(i);
        }
    }
    assert(s.take(n as int) =~= s);
    found
}

/// The text by which an array item is matched: the value under `array_key`
/// when the item is an object and that value is a string, a number or a
/// boolean.
pub fn array_key_value(value: &Value, key: &str) -> (r: Option<String>)
    ensures
        opt_text(r) == key_value(value@, key@),
{
    match value {
        Value::Object(entries) => {
            let k = String::from_str(key);
            match find_entry_index(entries, &k) {
                Some(j) => match &entries[j].1 {
                    Value::String(s) => Some(s.clone()),
                    Value::Number(n) => Some(n.clone()),
                    Value::Bool(b) => {
                        if *b {
                            Some(String::from_str("true"))
                        } else {
                            Some(String::from_str("false"))
                        }
                    },
                    _ => None,
                },
                None => None,
            }
        },
        _ => None,
    }
}

/// The key values of a list of items.
fn key_values(items: &Vec<Value>, key: &str) -> (r: Vec<Option<String>>)
    ensures
        r@.len() == items@.len(),
        forall|j: int|
            0 <= j < items@.len() ==> #[trigger] opt_text(r@[j]) == key_value(
                items_model(items@)[j],
                key@,
            ),
{
    let n = items.len();
    let mut r: Vec<Option<String>> = Vec::new();
    for i in 0..n
        invariant
            n == items@.len(),
            r@.len() == i,
            forall|j: int|
                0 <= j < i ==> #[trigger] opt_text(r@[j]) == key_value(items_model(items@)[j], key@),
    {
        r.push(array_key_value(&items[i], key));
    }
    r
}

/// Whether some key value is present.
fn any_present(keys: &Vec<Option<String>>) -> (r: bool)
    ensures
        r == exists|j: int| 0 <= j < keys@.len() && #[trigger] keys@[j] is Some,
{
    let n = keys.len();
    for i in 0..n
        invariant
            n == keys@.len(),
            forall|j: int| 0 <= j < i ==> !(#[trigger] keys@[j] is Some),
    {
        if keys[i].is_some() {
            return true;
        }
    }
    false
}

/// Index of the last item whose key value is `k`.
fn last_match_index(keys: &Vec<Option<String>>, k: &String, Ghost(items): Ghost<Seq<Json>>, Ghost(key): Ghost<Seq<char>>) -> (r: Option<usize>)
    requires
        keys@.len() == items.len(),
        forall|j: int| 0 <= j < items.len() ==> #[trigger] opt_text(keys@[j]) == key_value(items[j], key),
    ensures
        match r {
            Some(j) => j as int == last_match(items, key, k@) && j < items.len(),
            None => last_match(items, key, k@) == -1,
        },
{
    let n = keys.len();
    let mut found: Option<usize> = None;
    for i in 0..n
        invariant
            n == keys@.len(),
            keys@.len() == items.len(),
            forall|j: int| 0 <= j < items.len() ==> #[trigger] opt_text(keys@[j]) == key_value(items[j], key),
            match found {
                Some(j) => j as int == last_match(items.take(i as int), key, k@) && j < i,
                None => last_match(items.take(i as int), key, k@) == -1,
            },
    {
        assert(items.take(i + 1).drop_last() =~= items.take(i as int));
        assert(opt_text(keys@[i as int]) == key_value(items[i as int], key));
        match &keys[i] {
            Some(s) => {
                if *s == *k {
                    found = Some(i);
                }
            },
            None => {},
        }
    }
    assert(items.take(n as int) =~= items);
    found
}

/// Deep merge of `overlay` onto `base`. Objects are merged key by key: an
/// overlay key that is present in the base has its two values merged, and is
/// removed when that gives null; an absent key is added unless its value is
/// null. Arrays are merged item by item (see [`merge_items`]). In every other case the overlay wins.
/// Overlay content that is taken over without being merged with base content
/// loses the keys it binds to null, at every depth.
pub fn deep_merge(base: Value, overlay: Value, array_key: &str) -> (r: Value)
    ensures
        r@ == merge(base@, overlay@, array_key@),
        wf(base@) && wf(overlay@) ==> wf(r@),
        numbers_valid(base@) && numbers_valid(overlay@) ==> numbers_valid(r@),
    decreases overlay@, 1int,
{
    proof {
        if wf(base@) && wf(overlay@) {
            law_merge_preserves_wf(base@, overlay@, array_key@);
        }
        if numbers_valid(base@) && numbers_valid(overlay@) {
            law_merge_keeps_numbers_valid(base@, overlay@, array_key@);
        }
    }
    match overlay {
        Value::Object(o) => match base {
            Value::Object(b) => {
                proof {
                    assert(decreases_to!(overlay@ => overlay@->Object_0));
                }
                let m = merge_objects(b, o, array_key);
                Value::Object(m)
            },
            _ => remove_null_keys(Value::Object(o)),
        },
        Value::Array(o) => match base {
            Value::Array(b) => {
                proof {
                    assert(decreases_to!(overlay@ => overlay@->Array_0));
                }
                let m = merge_arrays(b, o, array_key);
                Value::Array(m)
            },
            _ => remove_null_keys(Value::Array(o)),
        },
        other => other,
    }
}

/// Object merge: folds the overlay entries, in order, into the base entries.
#[verifier::loop_isolation(false)]
#[verifier::spinoff_prover]
fn merge_objects(base: Vec<(String, Value)>, overlay: Vec<(String, Value)>, array_key: &str) -> (r:
    Vec<(String, Value)>)
    ensures
        entries_model(r@) == merge_entries(
            entries_model(base@),
            entries_model(overlay@),
            array_key@,
            0,
        ),
    decreases entries_model(overlay@), 0int,
{
    let ghost os = overlay@;
    let ghost om = entries_model(overlay@);
    let ghost bm = entries_model(base@);
    let n = overlay.len();
    let mut acc = base;
    let mut rest = reversed(overlay);
    let mut i: usize = 0;
    while i < n
        invariant
            n == os.len(),
            om == entries_model(os),
            i <= n,
            rest@.len() == n - i,
            forall|j: int| 0 <= j < rest@.len() ==> #[trigger] rest@[j] == os[n - 1 - j],
            merge_entries(entries_model(acc@), om, array_key@, i as int) == merge_entries(
                bm,
                om,
                array_key@,
                0,
            ),
        decreases n - i,
    {
        let ghost am = entries_model(acc@);
        let (k, ov) = rest.pop().unwrap();
        assert(os[i as int] == (k, ov));
        assert(om[i as int] == (k@, ov@));
        match find_entry_index(&acc, &k) {
            Some(j) => {
                let (_old_key, bv) = acc.remove(j);
                assert(bv@ == am[j as int].1);
                proof {
                    assert(decreases_to!(om => om[i as int]));
                    assert(decreases_to!(om[i as int] => om[i as int].1));
                    assert(decreases_to!(om => ov@));
                }
                let m = deep_merge(bv, ov, array_key);
                if !is_null_removal(&m) {
                    acc.insert(j, (k, m));
                    assert(entries_model(acc@) =~= am.update(j as int, (om[i as int].0, m@)));
                } else {
                    assert(entries_model(acc@) =~= am.remove(j as int));
                }
            },
            None => {
                if !is_null_removal(&ov) {
                    let clean = remove_null_keys(ov);
                    acc.push((k, clean));
                    assert(entries_model(acc@) =~= am.push((om[i as int].0, clean@)));
                }
            },
        }
        i = i + 1;
    }
    acc
}

/// Array merge. When no item of either array has a key value the overlay
/// array replaces the base. Otherwise each overlay item is merged with the
/// last base item of the same key value, if any, and the base items that no
/// overlay item matched follow, in their order.
#[verifier::loop_isolation(false)]
#[verifier::spinoff_prover]
fn merge_arrays(base: Vec<Value>, overlay: Vec<Value>, array_key: &str) -> (r: Vec<Value>)
    ensures
        items_model(r@) == merge_items(items_model(base@), items_model(overlay@), array_key@),
    decreases items_model(overlay@), 0int,
{
    let ghost os = overlay@;
    let ghost om = items_model(overlay@);
    let ghost bm = items_model(base@);
    let ghost key = array_key@;
    let base_keys = key_values(&base, array_key);
    let overlay_keys = key_values(&overlay, array_key);
    let base_keyed = any_present(&base_keys);
    let overlay_keyed = any_present(&overlay_keys);
    proof {
        if base_keyed {
            let j = choose|j: int| 0 <= j < base_keys@.len() && #[trigger] base_keys@[j] is Some;
            assert(opt_text(base_keys@[j]) == key_value(bm[j], key));
            assert(key_value(bm[j], key) is Some);
        }
        if overlay_keyed {
            let j = choose|j: int| 0 <= j < overlay_keys@.len() && #[trigger] overlay_keys@[j] is Some;
            assert(opt_text(overlay_keys@[j]) == key_value(om[j], key));
            assert(key_value(om[j], key) is Some);
        }
        if smart_merged(bm, om, key) {
            if any_keyed(bm, key) {
                let j = choose|j: int| 0 <= j < bm.len() && #[trigger] key_value(bm[j], key) is Some;
                assert(opt_text(base_keys@[j]) == key_value(bm[j], key));
            } else {
                let j = choose|j: int| 0 <= j < om.len() && #[trigger] key_value(om[j], key) is Some;
                assert(opt_text(overlay_keys@[j]) == key_value(om[j], key));
            }
        }
    }
    if !base_keyed && !overlay_keyed {
        let clean = remove_null_keys(Value::Array(overlay));
        assert(clean@ == Json::Array(items_without_null_keys(om)));
        return match clean {
            Value::Array(items) => items,
            _ => {
                proof {
                    assert(false);
                }
                Vec::new()
            },
        };
    }
    assert(smart_merged(bm, om, key));
    let nb = base.len();
    let n = overlay.len();
    let mut matched: Vec<bool> = Vec::new();
    for j in 0..nb
        invariant
            matched@.len() == j,
            forall|x: int| 0 <= x < j ==> !(#[trigger] matched@[x]),
    {
        matched.push(false);
    }
    let mut result: Vec<Value> = Vec::new();
    let mut rest = reversed(overlay);
    let mut i: usize = 0;
    while i < n
        invariant
            n == os.len(),
            om == items_model(os),
            bm == items_model(base@),
            nb == base@.len(),
            key == array_key@,
            i <= n,
            rest@.len() == n - i,
            forall|j: int| 0 <= j < rest@.len() ==> #[trigger] rest@[j] == os[n - 1 - j],
            base_keys@.len() == nb,
            forall|j: int| 0 <= j < nb ==> #[trigger] opt_text(base_keys@[j]) == key_value(bm[j], key),
            overlay_keys@.len() == n,
            forall|j: int| 0 <= j < n ==> #[trigger] opt_text(overlay_keys@[j]) == key_value(om[j], key),
            matched@.len() == nb,
            forall|x: int|
                0 <= x < nb ==> #[trigger] matched@[x] == exists|p: int|
                    0 <= p < i && #[trigger] match_index(bm, om[p], key) == x,
            result@.len() == i,
            forall|p: int| 0 <= p < i ==> #[trigger] result@[p]@ == merge_item(bm, om[p], key),
        decreases n - i,
    {
        let item = rest.pop().unwrap();
        assert(item@ == om[i as int]);
        assert(opt_text(overlay_keys@[i as int]) == key_value(om[i as int], key));
        let ghost old_matched = matched@;
        let ghost mi = match_index(bm, om[i as int], key);
        let found = match &overlay_keys[i] {
            Some(k) => last_match_index(&base_keys, k, Ghost(bm), Ghost(key)),
            None => None,
        };
        match found {
            Some(j) => {
                assert(mi == j);
                matched.set(j, true);
                let b = copy_value(&base[j]);
                proof {
                    assert(decreases_to!(om => om[i as int]));
                    assert(decreases_to!(om => item@));
                }
                let m = deep_merge(b, item, array_key);
                result.push(m);
            },
            None => {
                assert(mi == -1);
                let clean = remove_null_keys(item);
                result.push(clean);
            },
        }
        assert forall|x: int| 0 <= x < nb implies #[trigger] matched@[x] == exists|p: int|
            0 <= p < i + 1 && #[trigger] match_index(bm, om[p], key) == x by {
            if matched@[x] && !old_matched[x] {
                assert(match_index(bm, om[i as int], key) == x);
            }
            if !matched@[x] {
                assert forall|p: int| 0 <= p < i + 1 implies #[trigger] match_index(bm, om[p], key) != x by {
                    if p < i {
                        assert(!old_matched[x]);
                    }
                }
            }
        }
        assert(result@[i as int]@ == merge_item(bm, om[i as int], key));
        i = i + 1;
    }
    let ghost head = items_model(result@);
    assert forall|p: int| 0 <= p < n implies #[trigger] head[p] == merge_item(bm, om[p], key) by {
        assert(result@[p]@ == merge_item(bm, om[p], key));
    }
    assert(head =~= Seq::new(
        om.len(),
        |p: int|
            if 0 <= p < om.len() {
                merge_item(bm, om[p], key)
            } else {
                Json::Null
            },
    ));
    assert forall|x: int| 0 <= x < nb implies #[trigger] matched@[x] == is_matched(bm, om, key, x) by {
        if matched@[x] {
            let p = choose|p: int| 0 <= p < n && #[trigger] match_index(bm, om[p], key) == x;
            assert(is_matched(bm, om, key, x));
        }
    }
    let ghost bs = base@;
    let mut rest_base = reversed(base);
    let mut j: usize = 0;
    while j < nb
        invariant
            nb == bs.len(),
            bm == items_model(bs),
            j <= nb,
            rest_base@.len() == nb - j,
            forall|x: int| 0 <= x < rest_base@.len() ==> #[trigger] rest_base@[x] == bs[nb - 1 - x],
            matched@.len() == nb,
            forall|x: int| 0 <= x < nb ==> #[trigger] matched@[x] == is_matched(bm, om, key, x),
            items_model(result@) == head + unmatched(bm, om, key, j as int),
        decreases nb - j,
    {
        let b = rest_base.pop().unwrap();
        assert(b@ == bm[j as int]);
        let ghost before = items_model(result@);
        if !matched[j] {
            result.push(b);
            assert(items_model(result@) =~= before.push(bm[j as int]));
        }
        j = j + 1;
    }
    result
}

/// Merges documents in priority order: the first is the base and each later
/// one is deep-merged onto the result so far, so later documents override
/// earlier ones. No documents give the empty object.
pub fn merge_all(values: &[Value], array_key: &str) -> (r: Value)
    ensures
        r@ == merge_all_spec(items_model(values@), array_key@),
        (forall|i: int| 0 <= i < values@.len() ==> #[trigger] wf(values@[i]@)) ==> wf(r@),
        (forall|i: int| 0 <= i < values@.len() ==> #[trigger] numbers_valid(values@[i]@))
            ==> numbers_valid(r@),
{
    proof {
        let vm = items_model(values@);
        if forall|i: int| 0 <= i < values@.len() ==> #[trigger] numbers_valid(values@[i]@) {
            assert forall|i: int| 0 <= i < vm.len() implies #[trigger] numbers_valid(vm[i]) by {
                assert(vm[i] == values@[i]@);
            }
            law_merge_all_keeps_numbers_valid(vm, array_key@);
        }
        if forall|i: int| 0 <= i < values@.len() ==> #[trigger] wf(values@[i]@) {
            assert forall|i: int| 0 <= i < vm.len() implies #[trigger] wf(vm[i]) by {
                assert(vm[i] == values@[i]@);
            }
            law_merge_all_preserves_wf(vm, array_key@);
        }
    }
    let ghost vm = items_model(values@);
    let n = values.len();
    if n == 0 {
        let empty: Vec<(String, Value)> = Vec::new();
        let r = Value::Object(empty);
        assert(entries_model(empty@) =~= Seq::empty());
        return r;
    }
    let mut acc = copy_value(&values[0]);
    assert(vm.take(1).drop_last() =~= Seq::empty());
    for i in 1..n
        invariant
            n == values@.len(),
            vm == items_model(values@),
            acc@ == merge_all_spec(vm.take(i as int), array_key@),
    {
        let next = copy_value(&values[i]);
        acc = deep_merge(acc, next, array_key);
        assert(vm.take(i + 1).drop_last() =~= vm.take(i as int));
    }
    assert(vm.take(n as int) =~= vm);
    acc
}

} // verus!
