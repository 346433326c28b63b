//! Document values: the tree that a JSON or YAML metadata file reads as, and the
//! operations on its objects.
use vstd::prelude::*;
use crate::text::str_eq;

verus! {

/// The abstract form of a document value. An object is the map from its keys to their
/// values.
pub ghost enum JsonView {
    Null,
    Bool(bool),
    Number(Seq<char>),
    Str(Seq<char>),
    Array(Seq<JsonView>),
    Object(Map<Seq<char>, JsonView>),
}

/// An arbitrary JSON/YAML value. A number is held as the text that the document
/// reader renders it as (decimal integers; floats in shortest round-trip form).
/// An object is a list of entries; where a key occurs more than once, the last
/// entry counts. The document readers give objects whose keys are distinct (see
/// [`well_keyed`]), and the object operations keep them so (see [`keys_distinct`]).
/// Two values are equal when their views are: objects compare as maps, whatever the
/// order of their entries.
#[derive(Debug)]
pub enum Value {
    Null,
    Bool(bool),
    Number(String),
    String(String),
    Array(Vec<Value>),
    Object(Vec<(String, Value)>),
}

/// The map that a list of entries stands for: later entries replace earlier ones.
pub open spec fn entries_map(s: Seq<(Seq<char>, JsonView)>) -> Map<Seq<char>, JsonView>
    decreases s.len(),
{
    if s.len() == 0 {
        Map::empty()
    } else {
        entries_map(s.drop_last()).insert(s.last().0, s.last().1)
    }
}

impl View for Value {
    type V = JsonView;

    open spec fn view(&self) -> JsonView
        decreases self,
    {
        match self {
            Value::Null => JsonView::Null,
            Value::Bool(b) => JsonView::Bool(*b),
            Value::Number(n) => JsonView::Number(n@),
            Value::String(s) => JsonView::Str(s@),
            Value::Array(a) => JsonView::Array(
                Seq::new(
                    a@.len(),
                    |i: int|
                        if 0 <= i < a@.len() {
                            a@[i].view()
                        } else {
                            JsonView::Null
                        },
                ),
            ),
            Value::Object(o) => JsonView::Object(obj_view(o@)),
        }
    }
}

impl Value {
    /// The text of a string value.
    pub fn as_str(&self) -> (r: Option<&str>)
        ensures
            match self@ {
                JsonView::Str(s) => r matches Some(x) && x@ == s,
                _ => r is None,
            },
    {
        match self {
            Value::String(s) => Some(s.as_str()),
            _ => None,
        }
    }
}

/// The views of a list of values.
pub open spec fn seq_view(s: Seq<Value>) -> Seq<JsonView> {
    Seq::new(s.len(), |i: int| s[i]@)
}

/// The map that a list of object entries stands for.
pub open spec fn obj_view(s: Seq<(String, Value)>) -> Map<Seq<char>, JsonView>
    decreases s,
{
    if s.len() == 0 {
        Map::empty()
    } else {
        obj_view(s.drop_last()).insert(s.last().0@, s.last().1.view())
    }
}

/// The entries of `s` other than those with key `k`, in order.
pub open spec fn without_key(s: Seq<(String, Value)>, k: Seq<char>) -> Seq<(String, Value)>
    decreases s.len(),
{
    if s.len() == 0 {
        s
    } else if s[0].0@ == k {
        without_key(s.drop_first(), k)
    } else {
        seq![s[0]] + without_key(s.drop_first(), k)
    }
}

/// No two entries of an object have the same key.
pub open spec fn keys_distinct(s: Seq<(String, Value)>) -> bool {
    forall|i: int, j: int| 0 <= i < j < s.len() ==> (#[trigger] s[i]).0@ != (#[trigger] s[j]).0@
}

/// Every object in the value, at any depth, has distinct keys, as the maps that the
/// document readers build do.
pub open spec fn well_keyed(v: Value) -> bool
    decreases v,
{
    match v {
        Value::Array(a) => forall|i: int| 0 <= i < a@.len() ==> well_keyed(#[trigger] a@[i]),
        Value::Object(o) => keys_distinct(o@) && forall|i: int|
            0 <= i < o@.len() ==> well_keyed(#[trigger] o@[i].1),
        _ => true,
    }
}

/// The entries without `k` hold no `k`, are entries of the list, and keep their keys
/// distinct when the list's keys are.
proof fn lemma_without_key_entries(s: Seq<(String, Value)>, k: Seq<char>)
    ensures
        forall|i: int| 0 <= i < without_key(s, k).len() ==> (#[trigger] without_key(s, k)[i]).0@ != k,
        forall|i: int| 0 <= i < without_key(s, k).len() ==> exists|j: int| 0 <= j < s.len()
            && s[j] == #[trigger] without_key(s, k)[i],
        keys_distinct(s) ==> keys_distinct(without_key(s, k)),
    decreases s.len(),
{
    if s.len() > 0 {
        let t = s.drop_first();
        lemma_without_key_entries(t, k);
        let w = without_key(t, k);
        assert forall|i: int| 0 <= i < w.len() implies exists|j: int| 0 <= j < s.len() && s[j]
            == #[trigger] w[i] by {
            let j = choose|j: int| 0 <= j < t.len() && t[j] == w[i];
            assert(s[j + 1] == w[i]);
        }
        if s[0].0@ != k {
            let r = seq![s[0]] + w;
            assert(r == without_key(s, k));
            assert forall|i: int| 0 <= i < r.len() implies exists|j: int| 0 <= j < s.len() && s[j]
                == #[trigger] r[i] by {
                if i == 0 {
                    assert(s[0] == r[0]);
                } else {
                    assert(r[i] == w[i - 1]);
                }
            }
            assert forall|i: int| 0 <= i < r.len() implies (#[trigger] r[i]).0@ != k by {
                if i > 0 {
                    assert(r[i] == w[i - 1]);
                }
            }
            if keys_distinct(s) {
                assert(keys_distinct(t)) by {
                    assert forall|a: int, b: int| 0 <= a < b < t.len() implies (#[trigger] t[a]).0@
                        != (#[trigger] t[b]).0@ by {
                        assert(t[a] == s[a + 1] && t[b] == s[b + 1]);
                    }
                }
                assert forall|a: int, b: int| 0 <= a < b < r.len() implies (#[trigger] r[a]).0@
                    != (#[trigger] r[b]).0@ by {
                    assert(r[b] == w[b - 1]);
                    let j = choose|j: int| 0 <= j < t.len() && t[j] == w[b - 1];
                    if a == 0 {
                        assert(s[j + 1] == r[b]);
                    } else {
                        assert(r[a] == w[a - 1]);
                    }
                }
            }
        } else {
            assert(w == without_key(s, k));
            if keys_distinct(s) {
                assert forall|a: int, b: int| 0 <= a < b < t.len() implies (#[trigger] t[a]).0@
                    != (#[trigger] t[b]).0@ by {
                    assert(t[a] == s[a + 1] && t[b] == s[b + 1]);
                }
            }
        }
    }
}

/// An object value's view is the map of its entries.
pub proof fn lemma_object_view(o: Vec<(String, Value)>)
    ensures
        Value::Object(o)@ == JsonView::Object(obj_view(o@)),
{
}

/// An array value's view is the sequence of its elements' views.
pub proof fn lemma_array_view(a: Vec<Value>)
    ensures
        Value::Array(a)@ == JsonView::Array(seq_view(a@)),
{
    let v = Value::Array(a);
    assert(forall|i: int| 0 <= i < a@.len() ==> v@->Array_0[i] == a@[i]@);
    assert(v@->Array_0 =~= seq_view(a@));
}

/// Appending an entry sets its key.
pub proof fn lemma_obj_view_push(s: Seq<(String, Value)>, e: (String, Value))
    ensures
        obj_view(s.push(e)) == obj_view(s).insert(e.0@, e.1@),
{
    assert(s.push(e).drop_last() == s);
}

/// The entries up to `i + 1` are those up to `i` and then entry `i`.
pub proof fn lemma_obj_view_take(s: Seq<(String, Value)>, i: int)
    requires
        0 <= i < s.len(),
    ensures
        obj_view(s.take(i + 1)) == obj_view(s.take(i)).insert(s[i].0@, s[i].1@),
{
    assert(s.take(i + 1).drop_last() == s.take(i));
}

proof fn lemma_obj_view_prepend(e: (String, Value), t: Seq<(String, Value)>)
    ensures
        obj_view(seq![e] + t) == if obj_view(t).contains_key(e.0@) {
            obj_view(t)
        } else {
            obj_view(t).insert(e.0@, e.1@)
        },
    decreases t.len(),
{
    if t.len() == 0 {
        assert((seq![e] + t).drop_last() == Seq::<(String, Value)>::empty());
        assert(obj_view(Seq::<(String, Value)>::empty()) == Map::<Seq<char>, JsonView>::empty());
        assert(obj_view(seq![e] + t) =~= Map::<Seq<char>, JsonView>::empty().insert(e.0@, e.1@));
    } else {
        let u = t.drop_last();
        assert((seq![e] + t).drop_last() == seq![e] + u);
        assert((seq![e] + t).last() == t.last());
        assert(obj_view(seq![e] + t) == obj_view(seq![e] + u).insert(t.last().0@, t.last().1@));
        assert(obj_view(t) == obj_view(u).insert(t.last().0@, t.last().1@));
        lemma_obj_view_prepend(e, u);
        if obj_view(t).contains_key(e.0@) {
            assert(obj_view(seq![e] + t) =~= obj_view(t));
        } else {
            assert(obj_view(seq![e] + t) =~= obj_view(t).insert(e.0@, e.1@));
        }
    }
}

proof fn lemma_without_key(s: Seq<(String, Value)>, k: Seq<char>)
    ensures
        obj_view(without_key(s, k)) == obj_view(s).remove(k),
    decreases s.len(),
{
    if s.len() == 0 {
        assert(obj_view(s).remove(k) =~= Map::empty());
    } else {
        let t = s.drop_first();
        assert(s == seq![s[0]] + t);
        lemma_without_key(t, k);
        lemma_obj_view_prepend(s[0], t);
        if s[0].0@ == k {
            assert(obj_view(s).remove(k) =~= obj_view(t).remove(k));
        } else {
            lemma_obj_view_prepend(s[0], without_key(t, k));
            assert(obj_view(without_key(s, k)) =~= obj_view(s).remove(k));
        }
    }
}

/// A key has an entry in the map of a list of entries just when some entry has it.
pub proof fn lemma_obj_view_keys(s: Seq<(String, Value)>, k: Seq<char>)
    ensures
        obj_view(s).contains_key(k) <==> exists|i: int| 0 <= i < s.len() && (#[trigger] s[i]).0@ == k,
    decreases s.len(),
{
    if s.len() > 0 {
        lemma_obj_view_keys(s.drop_last(), k);
        assert(obj_view(s) == obj_view(s.drop_last()).insert(s.last().0@, s.last().1@));
        if s.last().0@ == k {
            assert(s[s.len() - 1].0@ == k);
        }
        if obj_view(s.drop_last()).contains_key(k) {
            let i = choose|i: int| 0 <= i < s.drop_last().len() && (#[trigger] s.drop_last()[i]).0@ == k;
            assert(s[i].0@ == k);
        }
        if exists|i: int| 0 <= i < s.len() && (#[trigger] s[i]).0@ == k {
            let i = choose|i: int| 0 <= i < s.len() && (#[trigger] s[i]).0@ == k;
            if i < s.len() - 1 {
                assert(s.drop_last()[i].0@ == k);
                assert(obj_view(s.drop_last()).contains_key(k));
            }
        }
    }
}

/// A list of entries stands for a map with some key just when it is not empty.
pub proof fn lemma_obj_view_empty(s: Seq<(String, Value)>)
    ensures
        (exists|k: Seq<char>| obj_view(s).contains_key(k)) <==> s.len() > 0,
{
    if s.len() > 0 {
        lemma_obj_view_keys(s, s[0].0@);
        assert(obj_view(s).contains_key(s[0].0@));
    } else {
        assert(forall|k: Seq<char>| !obj_view(s).contains_key(k));
    }
}

/// The value that `key` has in the object's entries, if any.
pub fn obj_get<'a>(o: &'a Vec<(String, Value)>, key: &str) -> (r: Option<&'a Value>)
    ensures
        r is Some == obj_view(o@).contains_key(key@),
        r matches Some(v) ==> obj_view(o@)[key@] == v@,
{
    let mut i = o.len();
    assert(o@.take(o@.len() as int) == o@);
    while i > 0
        invariant
            i <= o@.len(),
            forall|m: Seq<char>|
                obj_view(o@).contains_key(m) && !obj_view(o@.take(i as int)).contains_key(m)
                    ==> m != key@,
            forall|m: Seq<char>|
                obj_view(o@.take(i as int)).contains_key(m) && m == key@ ==> obj_view(o@)[m]
                    == obj_view(o@.take(i as int))[m],
            forall|m: Seq<char>|
                obj_view(o@.take(i as int)).contains_key(m) ==> obj_view(o@).contains_key(m),
        decreases i,
    {
        proof {
            lemma_obj_view_take(o@, i - 1);
        }
        if str_eq(o[i - 1].0.as_str(), key) {
            return Some(&o[i - 1].1);
        }
        i = i - 1;
    }
    assert(o@.take(0) == Seq::<(String, Value)>::empty());
    None
}

/// Whether the object has an entry for `key`.
pub fn obj_contains(o: &Vec<(String, Value)>, key: &str) -> (r: bool)
    ensures
        r == obj_view(o@).contains_key(key@),
{
    obj_get(o, key).is_some()
}

/// Removes every entry for `key`, returning the value that the key had.
pub fn obj_remove(o: &mut Vec<(String, Value)>, key: &str) -> (r: Option<Value>)
    ensures
        obj_view(final(o)@) == obj_view(old(o)@).remove(key@),
        forall|i: int| 0 <= i < final(o)@.len() ==> (#[trigger] final(o)@[i]).0@ != key@,
        keys_distinct(old(o)@) ==> keys_distinct(final(o)@),
        r is Some == obj_view(old(o)@).contains_key(key@),
        r matches Some(v) ==> obj_view(old(o)@)[key@] == v@,
{
    let ghost s = o@;
    let mut found: Option<Value> = None;
    let mut i = o.len();
    assert(s.skip(s.len() as int) == Seq::<(String, Value)>::empty());
    assert(s.take(s.len() as int) == s);
    while i > 0
        invariant
            i <= s.len(),
            o@ == s.take(i as int) + without_key(s.skip(i as int), key@),
            found matches Some(v) ==> obj_view(s).contains_key(key@) && obj_view(s)[key@] == v@,
            found is None ==> (obj_view(s).contains_key(key@) == obj_view(
                s.take(i as int),
            ).contains_key(key@)) && (obj_view(s).contains_key(key@) ==> obj_view(s)[key@]
                == obj_view(s.take(i as int))[key@]),
        decreases i,
    {
        proof {
            lemma_obj_view_take(s, i - 1);
            let x = s.skip(i - 1);
            assert(x[0] == s[i - 1]);
            assert(x.drop_first() == s.skip(i as int));
            assert(s.take(i as int) == s.take(i - 1).push(s[i - 1]));
        }
        let hit = str_eq(o[i - 1].0.as_str(), key);
        if hit {
            let e = o.remove(i - 1);
            if found.is_none() {
                found = Some(e.1);
            }
            proof {
                assert(o@ =~= s.take(i - 1) + without_key(s.skip(i - 1), key@));
            }
        } else {
            proof {
                assert(o@ =~= s.take(i - 1) + without_key(s.skip(i - 1), key@));
            }
        }
        i = i - 1;
    }
    proof {
        assert(s.take(0) == Seq::<(String, Value)>::empty());
        assert(s.skip(0) == s);
        assert(o@ =~= without_key(s, key@));
        lemma_without_key(s, key@);
        lemma_without_key_entries(s, key@);
    }
    found
}

/// Sets `key` to `v`, replacing any entry it had.
pub fn obj_insert(o: &mut Vec<(String, Value)>, key: String, v: Value)
    ensures
        obj_view(final(o)@) == obj_view(old(o)@).insert(key@, v@),
        keys_distinct(old(o)@) ==> keys_distinct(final(o)@),
{
    let _ = obj_remove(o, key.as_str());
    let ghost before = o@;
    let ghost e = (key, v);
    o.push((key, v));
    proof {
        lemma_obj_view_push(before, e);
        assert(obj_view(o@) =~= obj_view(old(o)@).insert(e.0@, e.1@));
        if keys_distinct(before) {
            assert forall|a: int, b: int| 0 <= a < b < o@.len() implies (#[trigger] o@[a]).0@
                != (#[trigger] o@[b]).0@ by {
                if b == o@.len() - 1 {
                    assert(o@[a] == before[a]);
                } else {
                    assert(o@[a] == before[a] && o@[b] == before[b]);
                }
            }
        }
    }
}

/// The entry that gives a key its value is the last entry with that key.
proof fn lemma_obj_view_last(s: Seq<(String, Value)>, i: int, k: Seq<char>)
    requires
        0 <= i < s.len(),
        s[i].0@ == k,
        forall|j: int| i < j < s.len() ==> (#[trigger] s[j]).0@ != k,
    ensures
        obj_view(s).contains_key(k),
        obj_view(s)[k] == s[i].1@,
    decreases s.len(),
{
    assert(obj_view(s) == obj_view(s.drop_last()).insert(s.last().0@, s.last().1@));
    assert(s.last() == s[s.len() - 1]);
    if i < s.len() - 1 {
        let t = s.drop_last();
        assert forall|j: int| i < j < t.len() implies (#[trigger] t[j]).0@ != k by {
            assert(t[j] == s[j]);
        }
        lemma_obj_view_last(t, i, k);
        assert(t[i] == s[i]);
    }
}

/// The position of the entry that gives `key` its value, when the object has `key`:
/// the last entry with that key.
fn last_entry(o: &Vec<(String, Value)>, key: &str) -> (r: Option<usize>)
    ensures
        match r {
            Some(i) => i < o@.len() && o@[i as int].0@ == key@ && obj_view(o@).contains_key(key@)
                && obj_view(o@)[key@] == o@[i as int].1@,
            None => !obj_view(o@).contains_key(key@),
        },
{
    let mut i = o.len();
    while i > 0
        invariant
            i <= o@.len(),
            forall|j: int| i <= j < o@.len() ==> (#[trigger] o@[j]).0@ != key@,
        decreases i,
    {
        if str_eq(o[i - 1].0.as_str(), key) {
            proof {
                lemma_obj_view_last(o@, i - 1, key@);
            }
            return Some(i - 1);
        }
        i = i - 1;
    }
    proof {
        lemma_obj_view_keys(o@, key@);
    }
    None
}

/// Two values are the same document: their views are equal.
pub open spec fn same_document(a: Value, b: Value) -> bool {
    a@ == b@
}

/// Whether two values are equal as documents: the same views, so that objects compare
/// as maps.
pub fn values_equal(a: &Value, b: &Value) -> (r: bool)
    ensures
        r == same_document(*a, *b),
    decreases a,
{
    match (a, b) {
        (Value::Null, Value::Null) => true,
        (Value::Bool(x), Value::Bool(y)) => *x == *y,
        (Value::Number(x), Value::Number(y)) => str_eq(x.as_str(), y.as_str()),
        (Value::String(x), Value::String(y)) => str_eq(x.as_str(), y.as_str()),
        (Value::Array(x), Value::Array(y)) => {
            proof {
                lemma_array_view(*x);
                lemma_array_view(*y);
            }
            assert(a@ == JsonView::Array(seq_view(x@)));
            assert(b@ == JsonView::Array(seq_view(y@)));
            if x.len() != y.len() {
                assert(seq_view(x@).len() != seq_view(y@).len());
                assert(a@ != b@);
                return false;
            }
            let mut i: usize = 0;
            while i < x.len()
                invariant
                    *a is Array && a->Array_0 == *x,
                    a@ == JsonView::Array(seq_view(x@)),
                    b@ == JsonView::Array(seq_view(y@)),
                    x.len() == y.len(),
                    i <= x.len(),
                    forall|k: int| 0 <= k < i ==> (#[trigger] x@[k])@ == y@[k]@,
                decreases x.len() - i,
            {
                proof {
                    assert(decreases_to!(a->Array_0 => a->Array_0@));
                    assert(decreases_to!(a->Array_0@ => a->Array_0@[i as int]));
                }
                if !values_equal(&x[i], &y[i]) {
                    assert(seq_view(x@)[i as int] != seq_view(y@)[i as int]);
                    return false;
                }
                i = i + 1;
            }
            assert(seq_view(x@) =~= seq_view(y@));
            true
        },
        (Value::Object(x), Value::Object(y)) => {
            proof {
                lemma_object_view(*x);
                lemma_object_view(*y);
            }
            let ghost ma = obj_view(x@);
            let ghost mb = obj_view(y@);
            assert(a@ == JsonView::Object(ma));
            assert(b@ == JsonView::Object(mb));
            let mut i: usize = 0;
            while i < x.len()
                invariant
                    *a is Object && a->Object_0 == *x,
                    a@ == JsonView::Object(ma),
                    b@ == JsonView::Object(mb),
                    ma == obj_view(x@),
                    mb == obj_view(y@),
                    i <= x.len(),
                    forall|k: int|
                        0 <= k < i ==> ma.contains_key((#[trigger] x@[k]).0@) && mb.contains_key(
                            x@[k].0@,
                        ) && ma[x@[k].0@] == mb[x@[k].0@],
                decreases x.len() - i,
            {
                let ghost key = x@[i as int].0@;
                proof {
                    lemma_obj_view_keys(x@, key);
                }
                let ia = match last_entry(x, x[i].0.as_str()) {
                    Some(j) => j,
                    None => {
                        assert(false);
                        return false;
                    },
                };
                let ib = match last_entry(y, x[i].0.as_str()) {
                    Some(j) => j,
                    None => {
                        assert(ma.contains_key(key) && !mb.contains_key(key));
                        assert(ma != mb);
                        return false;
                    },
                };
                proof {
                    assert(decreases_to!(a->Object_0 => a->Object_0@));
                    assert(decreases_to!(a->Object_0@ => a->Object_0@[ia as int]));
                    assert(decreases_to!(a->Object_0@[ia as int] => a->Object_0@[ia as int].1));
                }
                if !values_equal(&x[ia].1, &y[ib].1) {
                    assert(ma[key] != mb[key]);
                    assert(ma != mb);
                    return false;
                }
                i = i + 1;
            }
            let mut j: usize = 0;
            while j < y.len()
                invariant
                    a@ == JsonView::Object(ma),
                    b@ == JsonView::Object(mb),
                    ma == obj_view(x@),
                    mb == obj_view(y@),
                    forall|k: int|
                        0 <= k < x.len() ==> ma.contains_key((#[trigger] x@[k]).0@) && mb.contains_key(
                            x@[k].0@,
                        ) && ma[x@[k].0@] == mb[x@[k].0@],
                    j <= y.len(),
                    forall|k: int| 0 <= k < j ==> ma.contains_key((#[trigger] y@[k]).0@),
                decreases y.len() - j,
            {
                if !obj_contains(x, y[j].0.as_str()) {
                    proof {
                        lemma_obj_view_keys(y@, y@[j as int].0@);
                        assert(mb.contains_key(y@[j as int].0@));
                        assert(ma != mb);
                    }
                    return false;
                }
                j = j + 1;
            }
            proof {
                assert forall|k: Seq<char>| #[trigger] ma.dom().contains(k) == mb.dom().contains(k)
                    && (ma.dom().contains(k) ==> ma[k] == mb[k]) by {
                    lemma_obj_view_keys(x@, k);
                    lemma_obj_view_keys(y@, k);
                    if ma.contains_key(k) {
                        let t = choose|t: int| 0 <= t < x@.len() && (#[trigger] x@[t]).0@ == k;
                        assert(ma.contains_key(x@[t].0@));
                    }
                    if mb.contains_key(k) {
                        let t = choose|t: int| 0 <= t < y@.len() && (#[trigger] y@[t]).0@ == k;
                        assert(ma.contains_key(y@[t].0@));
                    }
                }
                assert(ma.dom() =~= mb.dom());
                assert(ma =~= mb);
            }
            true
        },
        _ => false,
    }
}

impl PartialEq for Value {
    fn eq(&self, other: &Value) -> (r: bool) {
        values_equal(self, other)
    }
}

impl vstd::std_specs::cmp::PartialEqSpecImpl for Value {
    open spec fn obeys_eq_spec() -> bool {
        true
    }

    open spec fn eq_spec(&self, other: &Value) -> bool {
        same_document(*self, *other)
    }
}

impl Clone for Value {
    /// A copy of the value (see [`clone_value`]).
    fn clone(&self) -> (r: Value)
        ensures
            r@ == self@,
    {
        clone_value(self)
    }
}

/// A copy of a value.
pub fn clone_value(v: &Value) -> (r: Value)
    ensures
        r@ == v@,
    decreases v,
{
    match v {
        Value::Null => Value::Null,
        Value::Bool(b) => Value::Bool(*b),
        Value::Number(n) => Value::Number(n.clone()),
        Value::String(s) => Value::String(s.clone()),
        Value::Array(a) => {
            let mut out: Vec<Value> = Vec::new();
            let mut i: usize = 0;
            while i < a.len()
                invariant
                    *v is Array && v->Array_0 == *a,
                    i <= a.len(),
                    out@.len() == i,
                    forall|k: int| 0 <= k < i ==> (#[trigger] out@[k])@ == a@[k]@,
                decreases a.len() - i,
            {
                proof {
                    assert(decreases_to!(v->Array_0 => v->Array_0@));
                    assert(decreases_to!(v->Array_0@ => v->Array_0@[i as int]));
                }
                let c = clone_value(&a[i]);
                out.push(c);
                i = i + 1;
            }
            proof {
                lemma_array_view(*a);
                lemma_array_view(out);
                assert(seq_view(out@) =~= seq_view(a@));
            }
            Value::Array(out)
        },
        Value::Object(o) => {
            let mut out: Vec<(String, Value)> = Vec::new();
            let mut i: usize = 0;
            while i < o.len()
                invariant
                    *v is Object && v->Object_0 == *o,
                    i <= o.len(),
                    out@.len() == i,
                    forall|k: int|
                        0 <= k < i ==> (#[trigger] out@[k]).0@ == o@[k].0@ && out@[k].1@
                            == o@[k].1@,
                decreases o.len() - i,
            {
                proof {
                    assert(decreases_to!(v->Object_0 => v->Object_0@));
                    assert(decreases_to!(v->Object_0@ => v->Object_0@[i as int]));
                    assert(decreases_to!(v->Object_0@[i as int] => v->Object_0@[i as int].1));
                }
                let c = clone_value(&o[i].1);
                out.push((o[i].0.clone(), c));
                i = i + 1;
            }
            proof {
                lemma_object_view(*o);
                lemma_object_view(out);
                lemma_obj_view_same(out@, o@);
            }
            Value::Object(out)
        },
    }
}

/// A copy of an object's entries.
pub fn clone_entries(o: &Vec<(String, Value)>) -> (r: Vec<(String, Value)>)
    ensures
        obj_view(r@) == obj_view(o@),
{
    let mut out: Vec<(String, Value)> = Vec::new();
    let mut i: usize = 0;
    while i < o.len()
        invariant
            i <= o.len(),
            out@.len() == i,
            forall|k: int|
                0 <= k < i ==> (#[trigger] out@[k]).0@ == o@[k].0@ && out@[k].1@ == o@[k].1@,
        decreases o.len() - i,
    {
        let c = clone_value(&o[i].1);
        out.push((o[i].0.clone(), c));
        i = i + 1;
    }
    proof {
        lemma_obj_view_same(out@, o@);
    }
    out
}

/// Entry lists with the same keys and values stand for the same map.
pub proof fn lemma_obj_view_same(a: Seq<(String, Value)>, b: Seq<(String, Value)>)
    requires
        a.len() == b.len(),
        forall|k: int| 0 <= k < a.len() ==> (#[trigger] a[k]).0@ == b[k].0@ && a[k].1@ == b[k].1@,
    ensures
        obj_view(a) == obj_view(b),
    decreases a.len(),
{
    if a.len() > 0 {
        lemma_obj_view_same(a.drop_last(), b.drop_last());
    }
}

} // verus!
