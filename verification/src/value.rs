//! The configuration document tree and its mathematical model.
use vstd::prelude::*;

verus! {

/// Mathematical model of a configuration document: a JSON-like tree whose
/// strings and numbers are sequences of characters.
///
/// An object is modelled by its list of entries, in the order the library
/// keeps them; lookups go through [`find_entry`].
pub enum Json {
    Null,
    Bool(bool),
    /// A number, held as the decimal text that names it.
    Number(Seq<char>),
    Str(Seq<char>),
    Array(Seq<Json>),
    Object(Seq<(Seq<char>, Json)>),
}

/// A configuration document: null, a boolean, a number, a string, an array
/// of documents or an object mapping keys to documents.
///
/// A number is held as its decimal text (for example `5432`, `-1` or
/// `1.5`), which is all the merge logic reads of it.
#[derive(Debug)]
pub enum Value {
    Null,
    Bool(bool),
    Number(String),
    String(String),
    Array(Vec<Value>),
    Object(Vec<(String, Value)>),
}

impl Value {
    /// The model of a document.
    pub open spec fn model(self) -> Json
        decreases self,
    {
        match self {
            Value::Null => Json::Null,
            Value::Bool(b) => Json::Bool(b),
            Value::Number(n) => Json::Number(n@),
            Value::String(s) => Json::Str(s@),
            Value::Array(items) => Json::Array(items_model(items@)),
            Value::Object(entries) => Json::Object(entries_model(entries@)),
        }
    }
}

/// The models of a list of documents.
pub open spec fn items_model(items: Seq<Value>) -> Seq<Json>
    decreases items,
{
    Seq::new(
        items.len(),
        |i: int|
            if 0 <= i < items.len() {
                items[i].model()
            } else {
                Json::Null
            },
    )
}

/// The models of a list of object entries.
pub open spec fn entries_model(entries: Seq<(String, Value)>) -> Seq<(Seq<char>, Json)>
    decreases entries,
{
    Seq::new(
        entries.len(),
        |i: int|
            if 0 <= i < entries.len() {
                (entries[i].0@, entries[i].1.model())
            } else {
                (Seq::empty(), Json::Null)
            },
    )
}

impl View for Value {
    type V = Json;

    open spec fn view(&self) -> Json {
        self.model()
    }
}

/// Index of the last entry whose key is `key`, or -1 when there is none.
pub open spec fn find_entry(entries: Seq<(Seq<char>, Json)>, key: Seq<char>) -> int
    decreases entries.len(),
{
    if entries.len() == 0 {
        -1
    } else if entries.last().0 == key {
        entries.len() - 1
    } else {
        find_entry(entries.drop_last(), key)
    }
}

/// The value that an object's entries give `key`, if any.
pub open spec fn obj_get(entries: Seq<(Seq<char>, Json)>, key: Seq<char>) -> Option<Json> {
    let j = find_entry(entries, key);
    if j < 0 {
        None
    } else {
        Some(entries[j].1)
    }
}

/// No two entries share a key.
pub open spec fn distinct_keys(entries: Seq<(Seq<char>, Json)>) -> bool {
    forall|i: int, j: int|
        0 <= i < entries.len() && 0 <= j < entries.len() && i != j ==> #[trigger] entries[i].0
            != #[trigger] entries[j].0
}

/// Well-formedness of a document: within every object of the tree, no two
/// entries share a key.
pub open spec fn wf(v: Json) -> bool
    decreases v,
{
    match v {
        Json::Array(items) => wf_items(items),
        Json::Object(entries) => distinct_keys(entries) && wf_entries(entries),
        _ => true,
    }
}

/// Every document of the list is well formed.
pub open spec fn wf_items(items: Seq<Json>) -> bool
    decreases items,
{
    if items.len() == 0 {
        true
    } else {
        wf_items(items.drop_last()) && wf(items.last())
    }
}

/// The value of every entry is well formed.
pub open spec fn wf_entries(entries: Seq<(Seq<char>, Json)>) -> bool
    decreases entries,
{
    if entries.len() == 0 {
        true
    } else {
        wf_entries(entries.drop_last()) && wf(entries.last().1)
    }
}

/// A list of documents is well formed exactly when each of them is.
pub proof fn lemma_wf_items(items: Seq<Json>)
    ensures
        wf_items(items) == forall|i: int| 0 <= i < items.len() ==> #[trigger] wf(items[i]),
    decreases items.len(),
{
    if items.len() > 0 {
        let d = items.drop_last();
        assert(wf_items(items) == (wf_items(d) && wf(items.last())));
        lemma_wf_items(d);
        assert(items.last() == items[items.len() - 1]);
        if forall|i: int| 0 <= i < items.len() ==> #[trigger] wf(items[i]) {
            assert forall|i: int| 0 <= i < d.len() implies #[trigger] wf(d[i]) by {
                assert(d[i] == items[i]);
            }
        }
        if wf_items(items) {
            assert forall|i: int| 0 <= i < items.len() implies #[trigger] wf(items[i]) by {
                if i < d.len() {
                    assert(d[i] == items[i]);
                }
            }
        }
    }
}

/// A list of entries is well formed exactly when each value is.
pub proof fn lemma_wf_entries(entries: Seq<(Seq<char>, Json)>)
    ensures
        wf_entries(entries) == forall|i: int| 0 <= i < entries.len() ==> #[trigger] wf(entries[i].1),
    decreases entries.len(),
{
    if entries.len() > 0 {
        let d = entries.drop_last();
        assert(wf_entries(entries) == (wf_entries(d) && wf(entries.last().1)));
        lemma_wf_entries(d);
        assert(entries.last() == entries[entries.len() - 1]);
        if forall|i: int| 0 <= i < entries.len() ==> #[trigger] wf(entries[i].1) {
            assert forall|i: int| 0 <= i < d.len() implies #[trigger] wf(d[i].1) by {
                assert(d[i] == entries[i]);
            }
        }
        if wf_entries(entries) {
            assert forall|i: int| 0 <= i < entries.len() implies #[trigger] wf(entries[i].1) by {
                if i < d.len() {
                    assert(d[i] == entries[i]);
                }
            }
        }
    }
}

/// A deep copy of a document.
#[verifier::loop_isolation(false)]
pub fn copy_value(v: &Value) -> (r: Value)
    ensures
        r@ == v@,
    decreases v@,
{
    match v {
        Value::Null => Value::Null,
        Value::Bool(b) => Value::Bool(*b),
        Value::Number(n) => Value::Number(n.clone()),
        Value::String(s) => Value::String(s.clone()),
        Value::Array(items) => {
            let mut out: Vec<Value> = Vec::new();
            let n = items.len();
            for i in 0..n
                invariant
                    n == items@.len(),
                    out@.len() == i,
                    forall|j: int| 0 <= j < i ==> #[trigger] out@[j]@ == items@[j]@,
            {
                proof {
                    let s = items_model(items@);
                    assert(v@ == Json::Array(s));
                    assert(decreases_to!(v@ => v@->Array_0));
                    assert(s[i as int] == items@[i as int]@);
                    assert(decreases_to!(s => s[i as int]));
                }
                out.push(copy_value(&items[i]));
            }
            assert forall|j: int| 0 <= j < n implies items_model(out@)[j] == items_model(
                items@,
            )[j] by {
                assert(out@[j]@ == items@[j]@);
            }
            assert(items_model(out@) =~= items_model(items@));
            Value::Array(out)
        },
        Value::Object(entries) => {
            let mut out: Vec<(String, Value)> = Vec::new();
            let n = entries.len();
            for i in 0..n
                invariant
                    n == entries@.len(),
                    out@.len() == i,
                    forall|j: int|
                        0 <= j < i ==> #[trigger] out@[j].0@ == entries@[j].0@ && out@[j].1@
                            == entries@[j].1@,
            {
                proof {
                    let s = entries_model(entries@);
                    assert(v@ == Json::Object(s));
                    assert(decreases_to!(v@ => v@->Object_0));
                    assert(s[i as int].1 == entries@[i as int].1@);
                    assert(decreases_to!(s => s[i as int]));
                    assert(decreases_to!(s[i as int] => s[i as int].1));
                }
                let k = entries[i].0.clone();
                let x = copy_value(&entries[i].1);
                out.push((k, x));
            }
            assert(entries_model(out@) =~= entries_model(entries@));
            Value::Object(out)
        },
    }
}

impl Clone for Value {
    fn clone(&self) -> (r: Self)
        ensures
            r@ == self@,
    {
        copy_value(self)
    }
}

} // verus!
