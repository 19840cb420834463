//! Lists that hold at most one entry for each key, kept in the order of the keys.

use vstd::prelude::*;

use crate::text::order::{text_eq, text_less, text_lt, text_lt_irreflexive, text_lt_total, text_lt_transitive};

verus! {

/// A value that carries its own key.
pub trait Keyed: Sized {
    /// The key of the value.
    spec fn key_text(&self) -> Seq<char>;

    /// The key of the value.
    fn key(&self) -> (r: &str)
        ensures
            r@ == self.key_text(),
    ;
}

/// A value under a name.
#[derive(Debug)]
pub struct Named<V> {
    /// The name.
    pub name: String,
    /// The value.
    pub value: V,
}

impl<V> Keyed for Named<V> {
    open spec fn key_text(&self) -> Seq<char> {
        self.name@
    }

    fn key(&self) -> (r: &str) {
        self.name.as_str()
    }
}

/// Whether the keys of `s` ascend, so that no key occurs twice.
pub open spec fn keys_ascend<E: Keyed>(s: Seq<E>) -> bool {
    forall|i: int, j: int|
        0 <= i < j < s.len() ==> text_lt((#[trigger] s[i]).key_text(), (#[trigger] s[j]).key_text())
}

/// Whether `s` has an entry for `key`.
pub open spec fn has_key<E: Keyed>(s: Seq<E>, key: Seq<char>) -> bool {
    exists|i: int| 0 <= i < s.len() && (#[trigger] s[i]).key_text() == key
}

/// The entry of `s` for `key`.
pub open spec fn entry_of<E: Keyed>(s: Seq<E>, key: Seq<char>) -> E {
    s[choose|i: int| 0 <= i < s.len() && (#[trigger] s[i]).key_text() == key]
}

/// How many entries at the start of `s` have keys before `key`.
pub open spec fn rank<E: Keyed>(s: Seq<E>, key: Seq<char>) -> int
    decreases s.len(),
{
    if s.len() == 0 {
        0
    } else if text_lt(s.last().key_text(), key) {
        s.len() as int
    } else {
        rank(s.drop_last(), key)
    }
}

/// `s` with the entry for the key of `e` replaced by `e`, or with `e` put in its place by key.
pub open spec fn with_entry<E: Keyed>(s: Seq<E>, e: E) -> Seq<E> {
    let p = rank(s, e.key_text());
    if p < s.len() && s[p].key_text() == e.key_text() {
        s.update(p, e)
    } else {
        s.insert(p, e)
    }
}

/// The position at which the keys stop being before `key` is its rank.
pub proof fn rank_is<E: Keyed>(s: Seq<E>, key: Seq<char>, p: int)
    requires
        0 <= p <= s.len(),
        p > 0 ==> text_lt(s[p - 1].key_text(), key),
        forall|i: int| p <= i < s.len() ==> !text_lt((#[trigger] s[i]).key_text(), key),
    ensures
        rank(s, key) == p,
    decreases s.len(),
{
    if s.len() > p {
        assert(!text_lt(s[s.len() - 1].key_text(), key));
        rank_is(s.drop_last(), key, p);
    }
}

/// At most one entry has a given key.
pub proof fn entry_is_unique<E: Keyed>(s: Seq<E>, i: int)
    requires
        keys_ascend(s),
        0 <= i < s.len(),
    ensures
        has_key(s, s[i].key_text()),
        entry_of(s, s[i].key_text()) == s[i],
{
    let key = s[i].key_text();
    let j = choose|j: int| 0 <= j < s.len() && (#[trigger] s[j]).key_text() == key;
    text_lt_irreflexive(key);
    if i < j {
        assert(text_lt(s[i].key_text(), s[j].key_text()));
    } else if j < i {
        assert(text_lt(s[j].key_text(), s[i].key_text()));
    }
}

/// The rank of a key splits a list with ascending keys.
pub proof fn rank_splits<E: Keyed>(s: Seq<E>, key: Seq<char>)
    requires
        keys_ascend(s),
    ensures
        0 <= rank(s, key) <= s.len(),
        forall|i: int| 0 <= i < rank(s, key) ==> text_lt((#[trigger] s[i]).key_text(), key),
        forall|i: int|
            rank(s, key) <= i < s.len() ==> !text_lt((#[trigger] s[i]).key_text(), key),
        forall|i: int| rank(s, key) < i < s.len() ==> text_lt(key, (#[trigger] s[i]).key_text()),
        has_key(s, key) <==> rank(s, key) < s.len() && s[rank(s, key)].key_text() == key,
    decreases s.len(),
{
    let p = rank(s, key);
    if s.len() > 0 {
        let t = s.drop_last();
        assert forall|i: int, j: int| 0 <= i < j < t.len() implies text_lt(
            (#[trigger] t[i]).key_text(),
            (#[trigger] t[j]).key_text(),
        ) by {
            assert(text_lt(s[i].key_text(), s[j].key_text()));
        }
        rank_splits(t, key);
        let last = s[s.len() - 1];
        if text_lt(last.key_text(), key) {
            assert forall|i: int| 0 <= i < p implies text_lt((#[trigger] s[i]).key_text(), key) by {
                if i < s.len() - 1 {
                    assert(text_lt(s[i].key_text(), last.key_text()));
                    text_lt_transitive(s[i].key_text(), last.key_text(), key);
                }
            }
        } else {
            assert forall|i: int| 0 <= i < p implies text_lt((#[trigger] s[i]).key_text(), key) by {
                assert(t[i] == s[i]);
            }
            assert forall|i: int| p <= i < s.len() implies !text_lt(
                (#[trigger] s[i]).key_text(),
                key,
            ) by {
                if i < s.len() - 1 {
                    assert(t[i] == s[i]);
                }
            }
        }
        assert forall|i: int| p < i < s.len() implies text_lt(
            key,
            (#[trigger] s[i]).key_text(),
        ) by {
            text_lt_total(key, s[i].key_text());
            text_lt_total(key, s[p].key_text());
            assert(text_lt(s[p].key_text(), s[i].key_text()));
            if key == s[i].key_text() {
                assert(!text_lt(s[p].key_text(), key));
            }
            assert(!text_lt(s[i].key_text(), key));
        }
    }
    if has_key(s, key) {
        let j = choose|j: int| 0 <= j < s.len() && (#[trigger] s[j]).key_text() == key;
        text_lt_irreflexive(key);
        if j < p {
            assert(text_lt(s[j].key_text(), key));
        } else if j > p {
            assert(text_lt(key, s[j].key_text()));
        }
    }
}

/// Putting an entry in keeps the keys ascending, and is found under its key; every other key
/// keeps its entry.
pub proof fn with_entry_laws<E: Keyed>(s: Seq<E>, e: E)
    requires
        keys_ascend(s),
    ensures
        keys_ascend(with_entry(s, e)),
        has_key(with_entry(s, e), e.key_text()),
        entry_of(with_entry(s, e), e.key_text()) == e,
        forall|k: Seq<char>|
            k != e.key_text() ==> (has_key(with_entry(s, e), k) <==> #[trigger] has_key(s, k)),
        forall|k: Seq<char>|
            k != e.key_text() && #[trigger] has_key(s, k) ==> entry_of(with_entry(s, e), k)
                == entry_of(s, k),
{
    let key = e.key_text();
    let p = rank(s, key);
    let w = with_entry(s, e);
    rank_splits(s, key);
    let replaces = p < s.len() && s[p].key_text() == key;
    if !replaces && p < s.len() {
        text_lt_total(s[p].key_text(), key);
    }
    assert forall|i: int, j: int| 0 <= i < j < w.len() implies text_lt(
        (#[trigger] w[i]).key_text(),
        (#[trigger] w[j]).key_text(),
    ) by {
        if replaces {
            assert(text_lt(s[i].key_text(), s[j].key_text()));
        } else {
            let a = if i < p { i } else { i - 1 };
            let b = if j < p { j } else { j - 1 };
            if i != p && j != p {
                assert(w[i] == s[a] && w[j] == s[b]);
                assert(text_lt(s[a].key_text(), s[b].key_text()));
            } else if i == p {
                assert(w[j] == s[b]);
                assert(text_lt(key, s[b].key_text()));
            } else {
                assert(w[i] == s[a]);
            }
        }
    }
    assert(w[p] == e);
    entry_is_unique(w, p);
    assert forall|k: Seq<char>| k != key && #[trigger] has_key(s, k) implies has_key(w, k)
        && entry_of(w, k) == entry_of(s, k) by {
        let i = choose|i: int| 0 <= i < s.len() && (#[trigger] s[i]).key_text() == k;
        let j = if replaces || i < p { i } else { i + 1 };
        assert(w[j] == s[i]);
        entry_is_unique(w, j);
        entry_is_unique(s, i);
    }
    assert forall|k: Seq<char>| k != key && has_key(w, k) implies #[trigger] has_key(s, k) by {
        let j = choose|j: int| 0 <= j < w.len() && (#[trigger] w[j]).key_text() == k;
        let i = if replaces || j < p { j } else { j - 1 };
        assert(w[j] == s[i]);
    }
}

/// `s` without the entry for `key`.
pub open spec fn without_key<E: Keyed>(s: Seq<E>, key: Seq<char>) -> Seq<E> {
    let p = rank(s, key);
    if p < s.len() && s[p].key_text() == key {
        s.remove(p)
    } else {
        s
    }
}

/// Taking an entry out keeps the keys ascending; its key has no entry then, and every other key
/// keeps its entry.
pub proof fn without_key_laws<E: Keyed>(s: Seq<E>, key: Seq<char>)
    requires
        keys_ascend(s),
    ensures
        keys_ascend(without_key(s, key)),
        !has_key(without_key(s, key), key),
        forall|k: Seq<char>|
            k != key ==> (has_key(without_key(s, key), k) <==> #[trigger] has_key(s, k)),
        forall|k: Seq<char>|
            k != key && #[trigger] has_key(s, k) ==> entry_of(without_key(s, key), k) == entry_of(
                s,
                k,
            ),
{
    let p = rank(s, key);
    let w = without_key(s, key);
    rank_splits(s, key);
    if has_key(s, key) {
        assert forall|i: int, j: int| 0 <= i < j < w.len() implies text_lt(
            (#[trigger] w[i]).key_text(),
            (#[trigger] w[j]).key_text(),
        ) by {
            let a = if i < p { i } else { i + 1 };
            let b = if j < p { j } else { j + 1 };
            assert(w[i] == s[a] && w[j] == s[b]);
        }
        if has_key(w, key) {
            let j = choose|j: int| 0 <= j < w.len() && (#[trigger] w[j]).key_text() == key;
            let i = if j < p { j } else { j + 1 };
            assert(w[j] == s[i]);
            text_lt_irreflexive(key);
        }
        assert forall|k: Seq<char>| k != key && #[trigger] has_key(s, k) implies has_key(w, k)
            && entry_of(w, k) == entry_of(s, k) by {
            let i = choose|i: int| 0 <= i < s.len() && (#[trigger] s[i]).key_text() == k;
            let j = if i < p { i } else { i - 1 };
            assert(w[j] == s[i]);
            entry_is_unique(w, j);
            entry_is_unique(s, i);
        }
        assert forall|k: Seq<char>| k != key && has_key(w, k) implies #[trigger] has_key(s, k) by {
            let j = choose|j: int| 0 <= j < w.len() && (#[trigger] w[j]).key_text() == k;
            let i = if j < p { j } else { j + 1 };
            assert(w[j] == s[i]);
        }
    }
}

/// Entries in the order of their keys, at most one for each key.
#[derive(Debug)]
pub struct KeyedList<E: Keyed> {
    entries: Vec<E>,
}

/// Values under names.
pub type TextMap<V> = KeyedList<Named<V>>;

impl<E: Keyed> KeyedList<E> {
    /// The entries.
    pub closed spec fn view(&self) -> Seq<E> {
        self.entries@
    }

    #[verifier::type_invariant]
    closed spec fn ordered(&self) -> bool {
        keys_ascend(self.entries@)
    }

    /// A list without entries.
    pub fn new() -> (r: Self)
        ensures
            r@ == Seq::<E>::empty(),
    {
        KeyedList { entries: Vec::new() }
    }

    /// The entries, in the order of their keys.
    pub fn entries(&self) -> (r: &Vec<E>)
        ensures
            r@ == self@,
            keys_ascend(self@),
    {
        proof {
            use_type_invariant(self);
        }
        &self.entries
    }

    /// How many entries there are.
    pub fn len(&self) -> (n: usize)
        ensures
            n == self@.len(),
    {
        self.entries.len()
    }

    /// Whether there is no entry.
    pub fn is_empty(&self) -> (r: bool)
        ensures
            r == (self@.len() == 0),
    {
        self.entries.len() == 0
    }

    /// How many keys come before `key`.
    fn position(&self, key: &str) -> (p: usize)
        ensures
            p == rank(self@, key@),
            p <= self@.len(),
            keys_ascend(self@),
    {
        proof {
            use_type_invariant(self);
        }
        let mut low: usize = 0;
        let mut high: usize = self.entries.len();
        while low < high
            invariant
                keys_ascend(self@),
                low <= high <= self@.len(),
                low > 0 ==> text_lt(self@[low - 1].key_text(), key@),
                forall|i: int|
                    high <= i < self@.len() ==> !text_lt((#[trigger] self@[i]).key_text(), key@),
            decreases high - low,
        {
            let mid: usize = low + (high - low) / 2;
            if text_less(self.entries[mid].key(), key) {
                low = mid + 1;
            } else {
                proof {
                    assert forall|i: int| mid <= i < self@.len() implies !text_lt(
                        (#[trigger] self@[i]).key_text(),
                        key@,
                    ) by {
                        if i > mid && text_lt(self@[i].key_text(), key@) {
                            assert(text_lt(self@[mid as int].key_text(), self@[i].key_text()));
                            text_lt_transitive(self@[mid as int].key_text(), self@[i].key_text(), key@);
                        }
                    }
                }
                high = mid;
            }
        }
        proof {
            rank_is(self@, key@, low as int);
        }
        low
    }

    /// The entry for `key`.
    pub fn find(&self, key: &str) -> (r: Option<&E>)
        ensures
            r is Some <==> has_key(self@, key@),
            r matches Some(e) ==> *e == entry_of(self@, key@) && e.key_text() == key@,
            keys_ascend(self@),
    {
        let p: usize = self.position(key);
        proof {
            rank_splits(self@, key@);
        }
        if p < self.entries.len() && text_eq(self.entries[p].key(), key) {
            proof {
                entry_is_unique(self@, p as int);
            }
            Some(&self.entries[p])
        } else {
            None
        }
    }

    /// Whether there is an entry for `key`.
    pub fn contains_key(&self, key: &str) -> (r: bool)
        ensures
            r == has_key(self@, key@),
    {
        self.find(key).is_some()
    }

    /// Puts an entry in, in place of the one that has the same key.
    pub fn put(&mut self, e: E)
        ensures
            final(self)@ == with_entry(old(self)@, e),
            keys_ascend(final(self)@),
    {
        let p: usize = self.position(e.key());
        let mut entries: Vec<E> = Vec::new();
        core::mem::swap(&mut self.entries, &mut entries);
        proof {
            rank_splits(entries@, e.key_text());
            with_entry_laws(entries@, e);
        }
        if p < entries.len() && text_eq(entries[p].key(), e.key()) {
            entries.set(p, e);
        } else {
            entries.insert(p, e);
        }
        self.entries = entries;
    }

    /// Takes the entry for `key` out.
    pub fn take(&mut self, key: &str) -> (r: Option<E>)
        ensures
            final(self)@ == without_key(old(self)@, key@),
            keys_ascend(old(self)@),
            r is Some <==> has_key(old(self)@, key@),
            r matches Some(e) ==> e == entry_of(old(self)@, key@),
    {
        let p: usize = self.position(key);
        let mut entries: Vec<E> = Vec::new();
        core::mem::swap(&mut self.entries, &mut entries);
        proof {
            rank_splits(entries@, key@);
            without_key_laws(entries@, key@);
        }
        let mut r: Option<E> = None;
        if p < entries.len() && text_eq(entries[p].key(), key) {
            proof {
                entry_is_unique(entries@, p as int);
            }
            r = Some(entries.remove(p));
        }
        self.entries = entries;
        r
    }
}

impl<V> KeyedList<Named<V>> {
    /// The value under `name`.
    pub fn get(&self, name: &str) -> (r: Option<&V>)
        ensures
            r is Some <==> has_key(self@, name@),
            r matches Some(v) ==> *v == entry_of(self@, name@).value,
    {
        match self.find(name) {
            Some(e) => Some(&e.value),
            None => None,
        }
    }

    /// Puts a value under a name, in place of the one that was there.
    pub fn insert(&mut self, name: &str, value: V)
        ensures
            exists|e: Named<V>|
                e.name@ == name@ && e.value == value && final(self)@ == #[trigger] with_entry(
                    old(self)@,
                    e,
                ),
    {
        let e: Named<V> = Named { name: name.to_owned(), value };
        self.put(e);
        assert(self@ == with_entry(old(self)@, e));
    }
}

} // verus!
