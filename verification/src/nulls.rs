//! Null values in documents: removing the keys they are bound to, writing
//! them as text, and documents in which no key is bound to null.
use vstd::prelude::*;

use crate::value::{
    distinct_keys, entries_model, items_model, lemma_wf_entries, lemma_wf_items, wf, wf_entries,
    wf_items, Json, Value,
};

verus! {

// ---------------------------------------------------------------------------
// Specification
// ---------------------------------------------------------------------------

/// A document with every object entry whose value is null removed, at every
/// depth (within arrays too).
pub open spec fn without_null_keys(v: Json) -> Json
    decreases v,
{
    match v {
        Json::Array(items) => Json::Array(items_without_null_keys(items)),
        Json::Object(entries) => Json::Object(entries_without_null_keys(entries)),
        _ => v,
    }
}

/// Each document of a list without its null-valued keys.
pub open spec fn items_without_null_keys(items: Seq<Json>) -> Seq<Json>
    decreases items,
{
    Seq::new(
        items.len(),
        |i: int|
            if 0 <= i < items.len() {
                without_null_keys(items[i])
            } else {
                Json::Null
            },
    )
}

/// The entries whose value is not null, in order, each value without its
/// null-valued keys.
pub open spec fn entries_without_null_keys(entries: Seq<(Seq<char>, Json)>) -> Seq<
    (Seq<char>, Json),
>
    decreases entries,
{
    if entries.len() == 0 {
        Seq::empty()
    } else {
        let rest = entries_without_null_keys(entries.drop_last());
        if entries.last().1 is Null {
            rest
        } else {
            rest.push((entries.last().0, without_null_keys(entries.last().1)))
        }
    }
}

/// No object of the document binds a key to null.
pub open spec fn null_free(v: Json) -> bool
    decreases v,
{
    match v {
        Json::Array(items) => null_free_items(items),
        Json::Object(entries) => null_free_entries(entries),
        _ => true,
    }
}

/// No document of the list binds a key to null.
pub open spec fn null_free_items(items: Seq<Json>) -> bool
    decreases items,
{
    if items.len() == 0 {
        true
    } else {
        null_free_items(items.drop_last()) && null_free(items.last())
    }
}

/// No entry is null, and no entry's value binds a key to null.
pub open spec fn null_free_entries(entries: Seq<(Seq<char>, Json)>) -> bool
    decreases entries,
{
    if entries.len() == 0 {
        true
    } else {
        null_free_entries(entries.drop_last()) && !(entries.last().1 is Null) && null_free(
            entries.last().1,
        )
    }
}

/// A document with every null, at every depth, replaced by the text `null`.
pub open spec fn nulls_as_text(v: Json) -> Json
    decreases v,
{
    match v {
        Json::Null => Json::Str("null"@),
        Json::Array(items) => Json::Array(
            Seq::new(
                items.len(),
                |i: int|
                    if 0 <= i < items.len() {
                        nulls_as_text(items[i])
                    } else {
                        Json::Null
                    },
            ),
        ),
        Json::Object(entries) => Json::Object(
            Seq::new(
                entries.len(),
                |i: int|
                    if 0 <= i < entries.len() {
                        (entries[i].0, nulls_as_text(entries[i].1))
                    } else {
                        (Seq::empty(), Json::Null)
                    },
            ),
        ),
        _ => v,
    }
}

// ---------------------------------------------------------------------------
// Lemmas
// ---------------------------------------------------------------------------

/// A list is null free exactly when each of its documents is.
pub proof fn lemma_null_free_items(items: Seq<Json>)
    ensures
        null_free_items(items) == forall|i: int| 0 <= i < items.len() ==> #[trigger] null_free(items[i]),
    decreases items.len(),
{
    if items.len() > 0 {
        let d = items.drop_last();
        assert(null_free_items(items) == (null_free_items(d) && null_free(items.last())));
        lemma_null_free_items(d);
        assert(items.last() == items[items.len() - 1]);
        if forall|i: int| 0 <= i < items.len() ==> #[trigger] null_free(items[i]) {
            assert forall|i: int| 0 <= i < d.len() implies #[trigger] null_free(d[i]) by {
                assert(d[i] == items[i]);
            }
        }
        if null_free_items(items) {
            assert forall|i: int| 0 <= i < items.len() implies #[trigger] null_free(items[i]) by {
                if i < d.len() {
                    assert(d[i] == items[i]);
                }
            }
        }
    }
}

/// Entries are null free exactly when each value is neither null nor binds a
/// key to null.
pub proof fn lemma_null_free_entries(entries: Seq<(Seq<char>, Json)>)
    ensures
        null_free_entries(entries) == forall|i: int|
            0 <= i < entries.len() ==> !(#[trigger] entries[i].1 is Null) && null_free(entries[i].1),
    decreases entries.len(),
{
    if entries.len() > 0 {
        let d = entries.drop_last();
        assert(null_free_entries(entries) == (null_free_entries(d) && !(entries.last().1 is Null)
            && null_free(entries.last().1)));
        lemma_null_free_entries(d);
        assert(entries.last() == entries[entries.len() - 1]);
        if forall|i: int|
            0 <= i < entries.len() ==> !(#[trigger] entries[i].1 is Null) && null_free(
                entries[i].1,
            ) {
            assert forall|i: int| 0 <= i < d.len() implies !(#[trigger] d[i].1 is Null) && null_free(
                d[i].1,
            ) by {
                assert(d[i] == entries[i]);
            }
        }
        if null_free_entries(entries) {
            assert forall|i: int| 0 <= i < entries.len() implies !(#[trigger] entries[i].1 is Null)
                && null_free(entries[i].1) by {
                if i < d.len() {
                    assert(d[i] == entries[i]);
                }
            }
        }
    }
}

/// Removing null-valued keys keeps a null exactly as it is, and never turns
/// another document into null.
pub proof fn lemma_without_null_keys_null(v: Json)
    ensures
        (without_null_keys(v) is Null) == (v is Null),
        v is Object ==> without_null_keys(v) is Object,
        v is Array ==> without_null_keys(v) is Array,
{
}

/// Every key of the kept entries is the key of an entry of the input.
proof fn lemma_entries_keys(entries: Seq<(Seq<char>, Json)>)
    ensures
        entries_without_null_keys(entries).len() <= entries.len(),
        forall|x: int|
            0 <= x < entries_without_null_keys(entries).len() ==> exists|y: int|
                0 <= y < entries.len() && #[trigger] entries_without_null_keys(entries)[x].0
                    == #[trigger] entries[y].0,
    decreases entries.len(),
{
    if entries.len() > 0 {
        let d = entries.drop_last();
        lemma_entries_keys(d);
        let rest = entries_without_null_keys(d);
        let r = entries_without_null_keys(entries);
        assert forall|x: int| 0 <= x < r.len() implies exists|y: int|
            0 <= y < entries.len() && #[trigger] r[x].0 == #[trigger] entries[y].0 by {
            if x < rest.len() {
                assert(r[x] == rest[x]);
                let y = choose|y: int| 0 <= y < d.len() && #[trigger] rest[x].0 == #[trigger] d[y].0;
                assert(d[y] == entries[y]);
            } else {
                assert(r[x].0 == entries[entries.len() - 1].0);
            }
        }
    }
}

/// Removing null-valued keys keeps a document well formed and makes it null
/// free.
pub proof fn lemma_without_null_keys(v: Json)
    ensures
        wf(v) ==> wf(without_null_keys(v)),
        null_free(without_null_keys(v)),
    decreases v, 1int,
{
    match v {
        Json::Array(items) => lemma_items_without_null_keys(items),
        Json::Object(entries) => lemma_entries_without_null_keys(entries),
        _ => {},
    }
}

proof fn lemma_items_without_null_keys(items: Seq<Json>)
    ensures
        wf_items(items) ==> wf_items(items_without_null_keys(items)),
        null_free_items(items_without_null_keys(items)),
    decreases items, 0int,
{
    let r = items_without_null_keys(items);
    lemma_wf_items(items);
    lemma_wf_items(r);
    lemma_null_free_items(r);
    assert forall|i: int| 0 <= i < r.len() implies (wf(items[i]) ==> wf(#[trigger] r[i])) && null_free(
        r[i],
    ) by {
        assert(decreases_to!(items => items[i]));
        lemma_without_null_keys(items[i]);
    }
}

proof fn lemma_entries_without_null_keys(entries: Seq<(Seq<char>, Json)>)
    ensures
        distinct_keys(entries) && wf_entries(entries) ==> distinct_keys(
            entries_without_null_keys(entries),
        ) && wf_entries(entries_without_null_keys(entries)),
        null_free_entries(entries_without_null_keys(entries)),
    decreases entries, 0int,
{
    if entries.len() > 0 {
        let d = entries.drop_last();
        let last = entries.last();
        assert(last == entries[entries.len() - 1]);
        assert(decreases_to!(entries => entries.drop_last()));
        lemma_entries_without_null_keys(d);
        let rest = entries_without_null_keys(d);
        let r = entries_without_null_keys(entries);
        assert(decreases_to!(entries => entries[entries.len() - 1]));
        assert(decreases_to!(entries[entries.len() - 1] => entries[entries.len() - 1].1));
        lemma_without_null_keys(last.1);
        lemma_without_null_keys_null(last.1);
        if !(last.1 is Null) {
            assert(r == rest.push((last.0, without_null_keys(last.1))));
            assert(r.drop_last() =~= rest);
        }
        if distinct_keys(entries) && wf_entries(entries) {
            lemma_wf_entries(entries);
            lemma_wf_entries(d);
            assert forall|a: int, b: int|
                0 <= a < d.len() && 0 <= b < d.len() && a != b implies #[trigger] d[a].0
                != #[trigger] d[b].0 by {
                assert(d[a] == entries[a]);
                assert(d[b] == entries[b]);
            }
            assert forall|i: int| 0 <= i < d.len() implies #[trigger] wf(d[i].1) by {
                assert(d[i] == entries[i]);
            }
            if !(last.1 is Null) {
                lemma_entries_keys(d);
                lemma_wf_entries(rest);
                lemma_wf_entries(r);
                assert forall|a: int, b: int|
                    0 <= a < r.len() && 0 <= b < r.len() && a != b implies #[trigger] r[a].0
                    != #[trigger] r[b].0 by {
                    if a < rest.len() && b < rest.len() {
                        assert(r[a] == rest[a]);
                        assert(r[b] == rest[b]);
                    } else if a < rest.len() {
                        assert(r[a] == rest[a]);
                        let y = choose|y: int| 0 <= y < d.len() && #[trigger] rest[a].0 == #[trigger] d[y].0;
                        assert(d[y] == entries[y]);
                    } else {
                        assert(r[b] == rest[b]);
                        let y = choose|y: int| 0 <= y < d.len() && #[trigger] rest[b].0 == #[trigger] d[y].0;
                        assert(d[y] == entries[y]);
                    }
                }
                assert forall|i: int| 0 <= i < r.len() implies #[trigger] wf(r[i].1) by {
                    if i < rest.len() {
                        assert(r[i] == rest[i]);
                    }
                }
            }
        }
    }
}

// ---------------------------------------------------------------------------
// Implementation
// ---------------------------------------------------------------------------

/// Removes every object entry whose value is null, at every depth.
#[verifier::loop_isolation(false)]
pub fn remove_null_keys(v: Value) -> (r: Value)
    ensures
        r@ == without_null_keys(v@),
    decreases v@,
{
    let ghost vm = v@;
    match v {
        Value::Array(items) => {
            let ghost is = items@;
            let ghost im = items_model(items@);
            let n = items.len();
            let mut rest = items;
            let mut out: Vec<Value> = Vec::new();
            let mut i: usize = 0;
            while i < n
                invariant
                    n == is.len(),
                    im == items_model(is),
                    i <= n,
                    rest@.len() == n - i,
                    forall|j: int| 0 <= j < rest@.len() ==> #[trigger] rest@[j] == is[j + i],
                    out@.len() == i,
                    forall|j: int| 0 <= j < i ==> #[trigger] out@[j]@ == without_null_keys(im[j]),
                decreases n - i,
            {
                let ghost before = rest@;
                let x = rest.remove(0);
                assert(x@ == im[i as int]);
                proof {
                    assert(vm == Json::Array(im));
                    assert(decreases_to!(vm => vm->Array_0));
                    assert(decreases_to!(im => im[i as int]));
                }
                let y = remove_null_keys(x);
                out.push(y);
                assert forall|j: int| 0 <= j < rest@.len() implies #[trigger] rest@[j] == is[j + i + 1] by {
                    assert(rest@[j] == before[j + 1]);
                }
                i = i + 1;
            }
            assert forall|j: int| 0 <= j < n implies items_model(out@)[j]
                == items_without_null_keys(im)[j] by {
                assert(out@[j]@ == without_null_keys(im[j]));
            }
            assert(items_model(out@) =~= items_without_null_keys(im));
            Value::Array(out)
        },
        Value::Object(entries) => {
            let ghost es = entries@;
            let ghost em = entries_model(entries@);
            let n = entries.len();
            let mut rest = entries;
            let mut out: Vec<(String, Value)> = Vec::new();
            let mut i: usize = 0;
            assert(em.take(0) =~= Seq::<(Seq<char>, Json)>::empty());
            while i < n
                invariant
                    n == es.len(),
                    em == entries_model(es),
                    i <= n,
                    rest@.len() == n - i,
                    forall|j: int| 0 <= j < rest@.len() ==> #[trigger] rest@[j] == es[j + i],
                    entries_model(out@) == entries_without_null_keys(em.take(i as int)),
                decreases n - i,
            {
                let ghost before = rest@;
                let ghost om = entries_model(out@);
                let (k, x) = rest.remove(0);
                assert(em[i as int] == (k@, x@));
                assert(em.take(i + 1).drop_last() =~= em.take(i as int));
                assert(em.take(i + 1).last() == em[i as int]);
                match x {
                    Value::Null => {},
                    x => {
                        proof {
                            assert(vm == Json::Object(em));
                            assert(decreases_to!(vm => vm->Object_0));
                            assert(decreases_to!(em => em[i as int]));
                            assert(decreases_to!(em[i as int] => em[i as int].1));
                        }
                        let y = remove_null_keys(x);
                        out.push((k, y));
                        assert(entries_model(out@) =~= om.push((em[i as int].0, y@)));
                    },
                }
                assert forall|j: int| 0 <= j < rest@.len() implies #[trigger] rest@[j] == es[j + i + 1] by {
                    assert(rest@[j] == before[j + 1]);
                }
                i = i + 1;
            }
            assert(em.take(n as int) =~= em);
            Value::Object(out)
        },
        other => other,
    }
}

/// Replaces every null, at every depth, by the text `null`.
#[verifier::loop_isolation(false)]
pub fn nulls_to_text(v: &Value) -> (r: Value)
    ensures
        r@ == nulls_as_text(v@),
    decreases v@,
{
    match v {
        Value::Null => Value::String(String::from_str("null")),
        Value::Array(items) => {
            let n = items.len();
            let mut out: Vec<Value> = Vec::new();
            for i in 0..n
                invariant
                    n == items@.len(),
                    out@.len() == i,
                    forall|j: int| 0 <= j < i ==> #[trigger] out@[j]@ == nulls_as_text(items@[j]@),
            {
                proof {
                    let s = items_model(items@);
                    assert(v@ == Json::Array(s));
                    assert(decreases_to!(v@ => v@->Array_0));
                    assert(s[i as int] == items@[i as int]@);
                    assert(decreases_to!(s => s[i as int]));
                }
                out.push(nulls_to_text(&items[i]));
            }
            let ghost s = items_model(items@);
            assert forall|j: int| 0 <= j < n implies #[trigger] items_model(out@)[j] == nulls_as_text(
                s[j],
            ) by {
                assert(out@[j]@ == nulls_as_text(items@[j]@));
            }
            assert(items_model(out@) =~= nulls_as_text(v@)->Array_0);
            Value::Array(out)
        },
        Value::Object(entries) => {
            let n = entries.len();
            let mut out: Vec<(String, Value)> = Vec::new();
            for i in 0..n
                invariant
                    n == entries@.len(),
                    out@.len() == i,
                    forall|j: int|
                        0 <= j < i ==> #[trigger] out@[j].0@ == entries@[j].0@ && out@[j].1@
                            == nulls_as_text(entries@[j].1@),
            {
                proof {
                    let s = entries_model(entries@);
                    assert(v@ == Json::Object(s));
                    assert(decreases_to!(v@ => v@->Object_0));
                    assert(s[i as int].1 == entries@[i as int].1@);
                    assert(decreases_to!(s => s[i as int]));
                    assert(decreases_to!(s[i as int] => s[i as int].1));
                }
                let k = entries[i].0.clone();
                let x = nulls_to_text(&entries[i].1);
                out.push((k, x));
            }
            assert(entries_model(out@) =~= nulls_as_text(v@)->Object_0);
            Value::Object(out)
        },
        Value::Bool(b) => Value::Bool(*b),
        Value::Number(t) => Value::Number(t.clone()),
        Value::String(s) => Value::String(s.clone()),
    }
}

} // verus!
