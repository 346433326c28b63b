//! A map from text keys to values that keeps its keys in order, as the parsed
//! metadata presents them.
use vstd::prelude::*;
use crate::text::{chars_eq, chars_of};

verus! {

/// The order of texts: by characters, position by position, a proper prefix first. (It is the byte order of their UTF-8 encodings, the order of `str`.)
pub open spec fn text_lt(a: Seq<char>, b: Seq<char>) -> bool
    decreases a.len(),
{
    if a.len() == 0 {
        b.len() > 0
    } else if b.len() == 0 {
        false
    } else if a[0] != b[0] {
        a[0] < b[0]
    } else {
        text_lt(a.drop_first(), b.drop_first())
    }
}

/// No text comes before itself.
pub proof fn lemma_text_lt_irreflexive(a: Seq<char>)
    ensures
        !text_lt(a, a),
    decreases a.len(),
{
    if a.len() > 0 {
        lemma_text_lt_irreflexive(a.drop_first());
    }
}

/// The order of texts is transitive.
pub proof fn lemma_text_lt_transitive(a: Seq<char>, b: Seq<char>, c: Seq<char>)
    requires
        text_lt(a, b),
        text_lt(b, c),
    ensures
        text_lt(a, c),
    decreases a.len(),
{
    if a.len() > 0 && b.len() > 0 && c.len() > 0 && a[0] == b[0] && b[0] == c[0] {
        lemma_text_lt_transitive(a.drop_first(), b.drop_first(), c.drop_first());
    }
}

/// Of two different texts, one comes before the other.
pub proof fn lemma_text_lt_total(a: Seq<char>, b: Seq<char>)
    ensures
        a == b || text_lt(a, b) || text_lt(b, a),
    decreases a.len(),
{
    if a.len() > 0 && b.len() > 0 && a[0] == b[0] {
        lemma_text_lt_total(a.drop_first(), b.drop_first());
        if a.drop_first() == b.drop_first() {
            assert(a.drop_first().len() == a.len() - 1);
            assert(b.drop_first().len() == b.len() - 1);
            assert forall|i: int| 0 <= i < a.len() implies a[i] == b[i] by {
                if i > 0 {
                    assert(a[i] == a.drop_first()[i - 1]);
                    assert(b[i] == b.drop_first()[i - 1]);
                }
            }
            assert(a =~= b);
        }
    } else if a.len() > 0 && b.len() > 0 {

    } else if a.len() == 0 && b.len() == 0 {
        assert(a =~= b);
    }
}

/// Whether text `a` comes before text `b`.
pub fn chars_lt(a: &[char], b: &[char]) -> (r: bool)
    ensures
        r == text_lt(a@, b@),
{
    let mut i: usize = 0;
    assert(a@.skip(0) == a@);
    assert(b@.skip(0) == b@);
    while i < a.len() && i < b.len() && a[i] == b[i]
        invariant
            i <= a.len(),
            i <= b.len(),
            text_lt(a@, b@) == text_lt(a@.skip(i as int), b@.skip(i as int)),
        decreases a.len() - i,
    {
        assert(a@.skip(i as int).drop_first() == a@.skip(i + 1));
        assert(b@.skip(i as int).drop_first() == b@.skip(i + 1));
        i = i + 1;
    }
    if i == a.len() {
        assert(a@.skip(i as int).len() == 0);
        i < b.len()
    } else if i == b.len() {
        assert(b@.skip(i as int).len() == 0);
        false
    } else {
        assert(a@.skip(i as int)[0] == a@[i as int]);
        assert(b@.skip(i as int)[0] == b@[i as int]);
        assert(a@[i as int] != b@[i as int]);
        a[i] < b[i]
    }
}

/// The map that a list of entries stands for: later entries replace earlier ones.
pub open spec fn entries_view<V: View>(s: Seq<(String, V)>) -> Map<Seq<char>, V::V>
    decreases s.len(),
{
    if s.len() == 0 {
        Map::empty()
    } else {
        entries_view(s.drop_last()).insert(s.last().0@, s.last().1@)
    }
}

/// The keys of the entries are in strictly increasing order.
pub open spec fn keys_sorted<V>(s: Seq<(String, V)>) -> bool {
    forall|i: int, j: int| 0 <= i < j < s.len() ==> text_lt(#[trigger] s[i].0@, #[trigger] s[j].0@)
}

proof fn lemma_sorted_unique<V>(s: Seq<(String, V)>, i: int, j: int)
    requires
        keys_sorted(s),
        0 <= i < s.len(),
        0 <= j < s.len(),
        s[i].0@ == s[j].0@,
    ensures
        i == j,
{
    if i < j {
        lemma_text_lt_irreflexive(s[i].0@);
    } else if j < i {
        lemma_text_lt_irreflexive(s[i].0@);
    }
}

/// In sorted entries, a key is in the map just when an entry has it, and the map
/// gives each entry's value.
pub proof fn lemma_entries_view<V: View>(s: Seq<(String, V)>)
    requires
        keys_sorted(s),
    ensures
        forall|k: Seq<char>|
            entries_view(s).contains_key(k) <==> exists|i: int|
                0 <= i < s.len() && (#[trigger] s[i]).0@ == k,
        forall|i: int| 0 <= i < s.len() ==> entries_view(s)[(#[trigger] s[i]).0@] == s[i].1@,
    decreases s.len(),
{
    if s.len() > 0 {
        let t = s.drop_last();
        assert(keys_sorted(t));
        lemma_entries_view(t);
        assert forall|k: Seq<char>|
            entries_view(s).contains_key(k) <==> exists|i: int|
                0 <= i < s.len() && (#[trigger] s[i]).0@ == k by {
            if entries_view(t).contains_key(k) {
                let i = choose|i: int| 0 <= i < t.len() && (#[trigger] t[i]).0@ == k;
                assert(s[i].0@ == k);
            }
            if k == s.last().0@ {
                assert(s[s.len() - 1].0@ == k);
            }
            if exists|i: int| 0 <= i < s.len() && (#[trigger] s[i]).0@ == k {
                let i = choose|i: int| 0 <= i < s.len() && (#[trigger] s[i]).0@ == k;
                if i < s.len() - 1 {
                    assert(t[i].0@ == k);
                }
            }
        }
        assert forall|i: int| 0 <= i < s.len() implies entries_view(s)[(#[trigger] s[i]).0@]
            == s[i].1@ by {
            if i < s.len() - 1 {
                assert(t[i] == s[i]);
                if s[i].0@ == s.last().0@ {
                    lemma_sorted_unique(s, i, s.len() - 1);
                }
            }
        }
    }
}

/// A map from text keys to values, kept in key order with each key once.
#[derive(Debug, PartialEq)]
pub struct SortedMap<V> {
    entries: Vec<(String, V)>,
}

impl<V: View> View for SortedMap<V> {
    type V = Map<Seq<char>, V::V>;

    closed spec fn view(&self) -> Map<Seq<char>, V::V> {
        entries_view(self.entries@)
    }
}

impl<V> SortedMap<V> {
    #[verifier::type_invariant]
    closed spec fn sorted(&self) -> bool {
        keys_sorted(self.entries@)
    }
}

impl<V: Clone> Clone for SortedMap<V> {
    /// A copy with the same keys in the same order, each value cloned.
    fn clone(&self) -> (r: Self) {
        proof {
            use_type_invariant(self);
        }
        let mut out: Vec<(String, V)> = Vec::new();
        let mut i: usize = 0;
        while i < self.entries.len()
            invariant
                i <= self.entries.len(),
                out@.len() == i,
                keys_sorted(self.entries@),
                forall|j: int| 0 <= j < i ==> (#[trigger] out@[j]).0@ == self.entries@[j].0@,
            decreases self.entries.len() - i,
        {
            let k = self.entries[i].0.clone();
            let v = self.entries[i].1.clone();
            out.push((k, v));
            i = i + 1;
        }
        proof {
            assert forall|a: int, b: int| 0 <= a < b < out@.len() implies text_lt(
                #[trigger] out@[a].0@,
                #[trigger] out@[b].0@,
            ) by {
                assert(out@[a].0@ == self.entries@[a].0@);
                assert(out@[b].0@ == self.entries@[b].0@);
            }
        }
        SortedMap { entries: out }
    }
}

impl<V: View> SortedMap<V> {
    /// The entries in key order.
    pub closed spec fn entry_seq(&self) -> Seq<(String, V)> {
        self.entries@
    }

    /// An empty map.
    pub fn new() -> (r: Self)
        ensures
            r@ == Map::<Seq<char>, V::V>::empty(),
    {
        SortedMap { entries: Vec::new() }
    }

    /// The number of keys.
    pub fn len(&self) -> (r: usize)
        ensures
            r == self.entry_seq().len(),
            (r == 0) == (self@ == Map::<Seq<char>, V::V>::empty()),
    {
        proof {
            use_type_invariant(self);
            lemma_entries_view(self.entries@);
            if self.entries@.len() > 0 {
                assert(self@.contains_key(self.entries@[0].0@));
            } else {
                assert(self@ =~= Map::<Seq<char>, V::V>::empty());
            }
        }
        self.entries.len()
    }

    /// Whether the map has no key.
    pub fn is_empty(&self) -> (r: bool)
        ensures
            r == (self@ == Map::<Seq<char>, V::V>::empty()),
    {
        self.len() == 0
    }

    /// The entries in key order: each key once, with its value.
    pub fn entries(&self) -> (r: &Vec<(String, V)>)
        ensures
            r@ == self.entry_seq(),
            keys_sorted(r@),
            forall|k: Seq<char>|
                self@.contains_key(k) <==> exists|i: int| 0 <= i < r@.len() && (#[trigger] r@[i]).0@ == k,
            forall|i: int| 0 <= i < r@.len() ==> self@[(#[trigger] r@[i]).0@] == r@[i].1@,
    {
        proof {
            use_type_invariant(self);
            lemma_entries_view(self.entries@);
        }
        &self.entries
    }

    /// The value of `key`, if it has one.
    pub fn get(&self, key: &str) -> (r: Option<&V>)
        ensures
            r is Some == self@.contains_key(key@),
            r matches Some(v) ==> self@[key@] == v@,
    {
        proof {
            use_type_invariant(self);
            lemma_entries_view(self.entries@);
        }
        let kc = chars_of(key);
        let mut i: usize = 0;
        while i < self.entries.len()
            invariant
                i <= self.entries@.len(),
                kc@ == key@,
                forall|j: int| 0 <= j < i ==> (#[trigger] self.entries@[j]).0@ != key@,
            decreases self.entries.len() - i,
        {
            let c = chars_of(self.entries[i].0.as_str());
            if chars_eq(c.as_slice(), kc.as_slice()) {
                proof {
                    use_type_invariant(self);
                    lemma_entries_view(self.entries@);
                    assert(self.entries@[i as int].0@ == key@);
                }
                return Some(&self.entries[i].1);
            }
            i = i + 1;
        }
        proof {
            use_type_invariant(self);
            lemma_entries_view(self.entries@);
        }
        None
    }

    /// Whether `key` has a value.
    pub fn contains_key(&self, key: &str) -> (r: bool)
        ensures
            r == self@.contains_key(key@),
    {
        self.get(key).is_some()
    }

    /// Sets `key` to `value`, in its place in key order.
    pub fn insert(&mut self, key: String, value: V)
        ensures
            final(self)@ == old(self)@.insert(key@, value@),
    {
        proof {
            use_type_invariant(&*self);
            lemma_entries_view(self.entries@);
        }
        let kc = chars_of(key.as_str());
        let mut i: usize = 0;
        while i < self.entries.len() && chars_lt(
            chars_of(self.entries[i].0.as_str()).as_slice(),
            kc.as_slice(),
        )
            invariant
                i <= self.entries@.len(),
                kc@ == key@,
                keys_sorted(self.entries@),
                forall|j: int| 0 <= j < i ==> text_lt(#[trigger] self.entries@[j].0@, key@),
            decreases self.entries.len() - i,
        {
            i = i + 1;
        }
        let equal = i < self.entries.len() && chars_eq(
            chars_of(self.entries[i].0.as_str()).as_slice(),
            kc.as_slice(),
        );
        proof {
            if i < self.entries@.len() {
                lemma_text_lt_total(self.entries@[i as int].0@, key@);
            }
        }
        let ghost s = self.entries@;
        let mut entries: Vec<(String, V)> = Vec::new();
        std::mem::swap(&mut entries, &mut self.entries);
        if equal {
            entries.set(i, (key, value));
        } else {
            entries.insert(i, (key, value));
        }
        proof {
            let t = entries@;
            if !equal {
                assert forall|b: int| i < b < t.len() implies text_lt(key@, #[trigger] t[b].0@) by {
                    assert(t[b] == s[b - 1]);
                    if b - 1 > i {
                        lemma_text_lt_transitive(key@, s[i as int].0@, s[b - 1].0@);
                    }
                }
            }
            assert forall|a: int, b: int| 0 <= a < b < t.len() implies text_lt(
                #[trigger] t[a].0@,
                #[trigger] t[b].0@,
            ) by {
                if equal {
                } else {
                    if b == i {
                    } else if a == i {
                    } else if a < i && b > i {
                        lemma_text_lt_transitive(s[a].0@, key@, t[b].0@);
                    } else if a > i {
                        assert(t[a] == s[a - 1]);
                        assert(t[b] == s[b - 1]);
                    }
                }
            }
            lemma_entries_view(s);
            lemma_entries_view(t);
            assert forall|k: Seq<char>| #[trigger] entries_view(t).contains_key(k)
                == entries_view(s).insert(key@, value@).contains_key(k) by {
                if k != key@ && entries_view(s).contains_key(k) {
                    let j = choose|j: int| 0 <= j < s.len() && (#[trigger] s[j]).0@ == k;
                    if equal || j < i {
                        assert(t[j].0@ == k);
                    } else {
                        assert(t[j + 1].0@ == k);
                    }
                }
                if entries_view(t).contains_key(k) && k != key@ {
                    let j = choose|j: int| 0 <= j < t.len() && (#[trigger] t[j]).0@ == k;
                    if equal || j < i {
                        assert(s[j].0@ == k);
                    } else {
                        assert(s[j - 1].0@ == k);
                    }
                }
                assert(t[i as int].0@ == key@);
            }
            assert forall|k: Seq<char>| #[trigger] entries_view(t).contains_key(k) implies entries_view(
                t,
            )[k] == entries_view(s).insert(key@, value@)[k] by {
                let j = choose|j: int| 0 <= j < t.len() && (#[trigger] t[j]).0@ == k;
                assert(t[i as int].0@ == key@);
                if k == key@ {
                    lemma_sorted_unique(t, j, i as int);
                } else {
                    if equal || j < i {
                        assert(s[j] == t[j]);
                    } else {
                        assert(s[j - 1] == t[j]);
                    }
                }
            }
            assert(entries_view(t) =~= entries_view(s).insert(key@, value@));
        }
        self.entries = entries;
    }
    /// Removes `key` and its value, if it has one.
    pub fn remove(&mut self, key: &str)
        ensures
            final(self)@ == old(self)@.remove(key@),
    {
        proof {
            use_type_invariant(&*self);
            lemma_entries_view(self.entries@);
        }
        let kc = chars_of(key);
        let mut i: usize = 0;
        while i < self.entries.len()
            invariant
                i <= self.entries@.len(),
                kc@ == key@,
                forall|j: int| 0 <= j < i ==> (#[trigger] self.entries@[j]).0@ != key@,
            ensures
                i <= self.entries@.len(),
                forall|j: int| 0 <= j < i ==> (#[trigger] self.entries@[j]).0@ != key@,
                i < self.entries@.len() ==> self.entries@[i as int].0@ == key@,
            decreases self.entries.len() - i,
        {
            let c = chars_of(self.entries[i].0.as_str());
            if chars_eq(c.as_slice(), kc.as_slice()) {
                break;
            }
            i = i + 1;
        }
        if i == self.entries.len() {
            proof {
                use_type_invariant(&*self);
                lemma_entries_view(self.entries@);
                assert(self@ =~= old(self)@.remove(key@));
            }
            return;
        }
        let ghost s = self.entries@;
        proof {
            use_type_invariant(&*self);
        }
        let mut entries: Vec<(String, V)> = Vec::new();
        std::mem::swap(&mut entries, &mut self.entries);
        let _ = entries.remove(i);
        proof {
            let t = entries@;
            assert forall|a: int, b: int| 0 <= a < b < t.len() implies text_lt(
                #[trigger] t[a].0@,
                #[trigger] t[b].0@,
            ) by {
                if a >= i {
                    assert(t[a] == s[a + 1]);
                }
                if b >= i {
                    assert(t[b] == s[b + 1]);
                }
            }
            lemma_entries_view(s);
            lemma_entries_view(t);
            assert(s[i as int].0@ == key@);
            assert forall|k: Seq<char>| #[trigger] entries_view(t).contains_key(k)
                == entries_view(s).remove(key@).contains_key(k) by {
                if k != key@ && entries_view(s).contains_key(k) {
                    let j = choose|j: int| 0 <= j < s.len() && (#[trigger] s[j]).0@ == k;
                    if j < i {
                        assert(t[j].0@ == k);
                    } else {
                        assert(t[j - 1].0@ == k);
                    }
                }
                if entries_view(t).contains_key(k) {
                    let j = choose|j: int| 0 <= j < t.len() && (#[trigger] t[j]).0@ == k;
                    if j < i {
                        assert(s[j].0@ == k);
                        if k == key@ {
                            lemma_sorted_unique(s, j, i as int);
                        }
                    } else {
                        assert(s[j + 1].0@ == k);
                        if k == key@ {
                            lemma_sorted_unique(s, j + 1, i as int);
                        }
                    }
                }
            }
            assert forall|k: Seq<char>| #[trigger] entries_view(t).contains_key(k) implies entries_view(
                t,
            )[k] == entries_view(s).remove(key@)[k] by {
                let j = choose|j: int| 0 <= j < t.len() && (#[trigger] t[j]).0@ == k;
                if j < i {
                    assert(s[j] == t[j]);
                } else {
                    assert(s[j + 1] == t[j]);
                }
            }
            assert(entries_view(t) =~= entries_view(s).remove(key@));
        }
        self.entries = entries;
    }
}

} // verus!
