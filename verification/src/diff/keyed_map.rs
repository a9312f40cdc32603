//! A map from names to values that keeps its entries in name order, as the
//! snapshots of a database hold their named elements.
use vstd::prelude::*;

use crate::text::{chars_of, compare_chars, seq_lt};

verus! {

broadcast use vstd::std_specs::vec::group_vec_axioms;

/// The keys of a list of entries.
pub open spec fn keys_of<V>(entries: Seq<(Seq<char>, V)>) -> Seq<Seq<char>> {
    entries.map_values(|e: (Seq<char>, V)| e.0)
}

/// Keys strictly increase (so no key occurs twice).
pub open spec fn strictly_sorted<V>(entries: Seq<(Seq<char>, V)>) -> bool {
    forall|i: int, j: int| 0 <= i < j < entries.len() ==> seq_lt(entries[i].0, entries[j].0)
}

/// Some entry has key `k`.
pub open spec fn has_key<V>(entries: Seq<(Seq<char>, V)>, k: Seq<char>) -> bool {
    exists|i: int| 0 <= i < entries.len() && entries[i].0 == k
}

/// The value stored under `k`, if any (the first entry with that key).
pub open spec fn value_of<V>(entries: Seq<(Seq<char>, V)>, k: Seq<char>) -> Option<V>
    decreases entries.len(),
{
    if entries.len() == 0 {
        None
    } else if entries[0].0 == k {
        Some(entries[0].1)
    } else {
        value_of(entries.drop_first(), k)
    }
}

/// Number of entries whose key comes before `k`.
pub open spec fn count_less<V>(entries: Seq<(Seq<char>, V)>, k: Seq<char>) -> int
    decreases entries.len(),
{
    if entries.len() == 0 {
        0
    } else {
        count_less(entries.drop_last(), k) + if seq_lt(entries.last().0, k) {
            1int
        } else {
            0int
        }
    }
}

/// The entries after storing `v` under `k`: the entry named `k` is replaced,
/// or a new entry is placed after all entries whose names come before `k`.
pub open spec fn insert_entry<V>(entries: Seq<(Seq<char>, V)>, k: Seq<char>, v: V) -> Seq<
    (Seq<char>, V),
> {
    if has_key(entries, k) {
        entries.update(count_less(entries, k), (k, v))
    } else {
        entries.insert(count_less(entries, k), (k, v))
    }
}

proof fn lemma_count_less<V>(entries: Seq<(Seq<char>, V)>, k: Seq<char>, p: int)
    requires
        strictly_sorted(entries),
        0 <= p <= entries.len(),
        forall|j: int| 0 <= j < p ==> seq_lt(#[trigger] entries[j].0, k),
        p < entries.len() ==> !seq_lt(entries[p].0, k),
    ensures
        count_less(entries, k) == p,
    decreases entries.len(),
{
    if entries.len() > 0 {
        let d = entries.drop_last();
        let n = entries.len() - 1;
        if p == entries.len() {
            lemma_count_less(d, k, p - 1);
        } else {
            if n > p {
                // the last key is at least entries[p].0, which is not before k
                if seq_lt(entries[n].0, k) {
                    assert(seq_lt(entries[p].0, entries[n].0));
                    lemma_seq_lt_transitive(entries[p].0, entries[n].0, k);
                }
                lemma_count_less(d, k, p);
            } else {
                lemma_count_less(d, k, p);
            }
        }
    }
}

/// A map from names to values, iterated in name order.
#[derive(Debug)]
pub struct KeyedMap<T: View> {
    entries: Vec<(String, T)>,
}

/// `seq_lt` is a strict total order.
pub proof fn lemma_seq_lt_irreflexive(a: Seq<char>)
    ensures
        !seq_lt(a, a),
    decreases a.len(),
{
    if a.len() > 0 {
        lemma_seq_lt_irreflexive(a.drop_first());
    }
}

pub proof fn lemma_seq_lt_transitive(a: Seq<char>, b: Seq<char>, c: Seq<char>)
    requires
        seq_lt(a, b),
        seq_lt(b, c),
    ensures
        seq_lt(a, c),
    decreases a.len(),
{
    if a.len() > 0 && b.len() > 0 && c.len() > 0 {
        if a[0] == b[0] && b[0] == c[0] {
            lemma_seq_lt_transitive(a.drop_first(), b.drop_first(), c.drop_first());
        }
    }
}

pub proof fn lemma_seq_lt_total(a: Seq<char>, b: Seq<char>)
    ensures
        a == b || seq_lt(a, b) || seq_lt(b, a),
    decreases a.len(),
{
    if a.len() > 0 && b.len() > 0 && a[0] == b[0] {
        lemma_seq_lt_total(a.drop_first(), b.drop_first());
        if a.drop_first() == b.drop_first() {
            assert(a =~= seq![a[0]] + a.drop_first());
            assert(b =~= seq![b[0]] + b.drop_first());
        }
    } else if a.len() == 0 && b.len() == 0 {
        assert(a =~= b);
    }
}

pub proof fn lemma_seq_lt_asymmetric(a: Seq<char>, b: Seq<char>)
    requires
        seq_lt(a, b),
    ensures
        !seq_lt(b, a),
{
    if seq_lt(b, a) {
        lemma_seq_lt_transitive(a, b, a);
        lemma_seq_lt_irreflexive(a);
    }
}

pub proof fn lemma_value_of_index<V>(entries: Seq<(Seq<char>, V)>, i: int)
    requires
        strictly_sorted(entries),
        0 <= i < entries.len(),
    ensures
        value_of(entries, entries[i].0) == Some(entries[i].1),
    decreases i,
{
    if i > 0 {
        lemma_seq_lt_irreflexive(entries[i].0);
        assert(seq_lt(entries[0].0, entries[i].0));
        assert(entries[0].0 != entries[i].0);
        let rest = entries.drop_first();
        assert(strictly_sorted(rest)) by {
            assert forall|a: int, b: int| 0 <= a < b < rest.len() implies seq_lt(rest[a].0, rest[b].0) by {
                assert(rest[a] == entries[a + 1]);
                assert(rest[b] == entries[b + 1]);
            }
        }
        lemma_value_of_index(rest, i - 1);
    }
}

pub proof fn lemma_value_of_absent<V>(entries: Seq<(Seq<char>, V)>, k: Seq<char>)
    requires
        !has_key(entries, k),
    ensures
        value_of(entries, k) is None,
    decreases entries.len(),
{
    if entries.len() > 0 {
        let rest = entries.drop_first();
        assert(!has_key(rest, k)) by {
            if has_key(rest, k) {
                let i = choose|i: int| 0 <= i < rest.len() && rest[i].0 == k;
                assert(entries[i + 1].0 == k);
            }
        }
        lemma_value_of_absent(rest, k);
    }
}

/// The view of a list of named entries.
pub open spec fn entries_view<T: View>(v: Seq<(String, T)>) -> Seq<(Seq<char>, T::V)> {
    v.map_values(|e: (String, T)| (e.0@, e.1@))
}

impl<T: View> View for KeyedMap<T> {
    type V = Seq<(Seq<char>, T::V)>;

    closed spec fn view(&self) -> Seq<(Seq<char>, T::V)> {
        entries_view(self.entries@)
    }
}

impl<T: View> KeyedMap<T> {
    /// Entries are held in strictly increasing key order.
    #[verifier::type_invariant]
    pub closed spec fn wf(&self) -> bool {
        strictly_sorted(self@)
    }

    /// An empty map.
    pub fn new() -> (r: Self)
        ensures
            r@ == Seq::<(Seq<char>, T::V)>::empty(),
    {
        let r = KeyedMap { entries: Vec::new() };
        assert(r@ =~= Seq::<(Seq<char>, T::V)>::empty());
        r
    }

    /// Number of entries.
    pub fn len(&self) -> (r: usize)
        ensures
            r == self@.len(),
            strictly_sorted(self@),
    {
        proof {
            use_type_invariant(self);
        }
        self.entries.len()
    }

    /// No entries.
    pub fn is_empty(&self) -> (r: bool)
        ensures
            r == (self@.len() == 0),
    {
        self.entries.len() == 0
    }

    /// The name of entry `i` (in name order).
    pub fn key_at(&self, i: usize) -> (r: &String)
        requires
            i < self@.len(),
        ensures
            r@ == self@[i as int].0,
    {
        &self.entries[i].0
    }

    /// The value of entry `i` (in name order).
    pub fn value_at(&self, i: usize) -> (r: &T)
        requires
            i < self@.len(),
        ensures
            r@ == self@[i as int].1,
    {
        &self.entries[i].1
    }

    /// Position of the entry named `key`.
    pub fn index_of(&self, key: &str) -> (r: Option<usize>)
        ensures
            r is Some <==> has_key(self@, key@),
            r matches Some(i) ==> i < self@.len() && self@[i as int].0 == key@,
    {
        let k = chars_of(key);
        let mut i: usize = 0;
        while i < self.entries.len()
            invariant
                k@ == key@,
                0 <= i <= self@.len(),
                self@.len() == self.entries@.len(),
                forall|j: int| 0 <= j < i ==> self@[j].0 != key@,
            decreases self.entries.len() - i,
        {
            let name = chars_of(self.entries[i].0.as_str());
            assert(self@[i as int].0 == self.entries@[i as int].0@);
            if compare_chars(name.as_slice(), k.as_slice()) == 0 {
                return Some(i);
            }
            i = i + 1;
        }
        None
    }

    /// Whether an entry named `key` exists.
    pub fn contains_key(&self, key: &str) -> (r: bool)
        ensures
            r == has_key(self@, key@),
    {
        self.index_of(key).is_some()
    }

    /// The value stored under `key`.
    pub fn get(&self, key: &str) -> (r: Option<&T>)
        ensures
            r is Some <==> has_key(self@, key@),
            r matches Some(v) ==> value_of(self@, key@) == Some(v@),
            r is None ==> value_of(self@, key@) is None,
    {
        proof {
            use_type_invariant(self);
        }
        match self.index_of(key) {
            Some(i) => {
                proof {
                    lemma_value_of_index(self@, i as int);
                }
                Some(&self.entries[i].1)
            },
            None => {
                proof {
                    lemma_value_of_absent(self@, key@);
                }
                None
            },
        }
    }

    /// Store `value` under `key`, replacing any value stored there before.
    pub fn insert(&mut self, key: String, value: T)
        ensures
            final(self)@ == insert_entry(old(self)@, key@, value@),
            strictly_sorted(final(self)@),
            has_key(final(self)@, key@),
            value_of(final(self)@, key@) == Some(value@),
            forall|k: Seq<char>| k != key@ ==> #[trigger] value_of(final(self)@, k) == value_of(old(self)@, k),
            forall|k: Seq<char>| k != key@ ==> #[trigger] has_key(final(self)@, k) == has_key(old(self)@, k),
    {
        proof {
            use_type_invariant(&*self);
        }
        let ghost old_v = self@;
        let k = chars_of(key.as_str());
        let mut p: usize = 0;
        let mut found = false;
        while p < self.entries.len()
            invariant_except_break
                k@ == key@,
                0 <= p <= self@.len(),
                self@ == old_v,
                self@.len() == self.entries@.len(),
                strictly_sorted(old_v),
                forall|j: int| 0 <= j < p ==> seq_lt(#[trigger] old_v[j].0, key@),
                !found,
            ensures
                k@ == key@,
                0 <= p <= self@.len(),
                self@ == old_v,
                self@.len() == self.entries@.len(),
                strictly_sorted(old_v),
                forall|j: int| 0 <= j < p ==> seq_lt(#[trigger] old_v[j].0, key@),
                found ==> p < self@.len() && old_v[p as int].0 == key@,
                !found ==> (p == self@.len() || seq_lt(key@, old_v[p as int].0)),
            decreases self.entries.len() - p,
        {
            let name = chars_of(self.entries[p].0.as_str());
            let c = compare_chars(name.as_slice(), k.as_slice());
            if c == 0 {
                found = true;
                break;
            }
            if c > 0 {
                break;
            }
            p = p + 1;
        }
        proof {
            if found {
                assert(!seq_lt(old_v[p as int].0, key@)) by {
                    lemma_seq_lt_irreflexive(key@);
                }
            } else if p < old_v.len() {
                lemma_seq_lt_asymmetric(key@, old_v[p as int].0);
            }
            lemma_count_less(old_v, key@, p as int);
            if !found {
                assert(!has_key(old_v, key@)) by {
                    if has_key(old_v, key@) {
                        let i = choose|i: int| 0 <= i < old_v.len() && old_v[i].0 == key@;
                        if i < p {
                            lemma_seq_lt_irreflexive(key@);
                        } else if i > p {
                            assert(seq_lt(old_v[p as int].0, old_v[i].0));
                            lemma_seq_lt_transitive(key@, old_v[p as int].0, key@);
                            lemma_seq_lt_irreflexive(key@);
                        } else {
                            lemma_seq_lt_irreflexive(key@);
                        }
                    }
                }
            }
        }
        let mut entries: Vec<(String, T)> = Vec::new();
        std::mem::swap(&mut entries, &mut self.entries);
        if found {
            entries.set(p, (key, value));
            proof {
                assert(entries_view(entries@) =~= old_v.update(p as int, (key@, value@)));
                assert(strictly_sorted(entries_view(entries@)));
            }
            self.entries = entries;
            proof {
                assert(self@ =~= old_v.update(p as int, (key@, value@)));
                lemma_value_of_index(self@, p as int);
                assert forall|kk: Seq<char>| kk != key@ implies #[trigger] value_of(self@, kk) == value_of(old_v, kk) by {
                    if has_key(old_v, kk) {
                        let i = choose|i: int| 0 <= i < old_v.len() && old_v[i].0 == kk;
                        lemma_value_of_index(old_v, i);
                        lemma_value_of_index(self@, i);
                    } else {
                        lemma_value_of_absent(old_v, kk);
                        assert(!has_key(self@, kk)) by {
                            if has_key(self@, kk) {
                                let i = choose|i: int| 0 <= i < self@.len() && self@[i].0 == kk;
                                assert(old_v[i].0 == kk);
                            }
                        }
                        lemma_value_of_absent(self@, kk);
                    }
                }
                assert forall|kk: Seq<char>| kk != key@ implies #[trigger] has_key(self@, kk) == has_key(old_v, kk) by {
                    if has_key(self@, kk) {
                        let i = choose|i: int| 0 <= i < self@.len() && self@[i].0 == kk;
                        assert(old_v[i].0 == kk);
                    }
                    if has_key(old_v, kk) {
                        let i = choose|i: int| 0 <= i < old_v.len() && old_v[i].0 == kk;
                        assert(self@[i].0 == kk);
                    }
                }
            }
        } else {
            entries.insert(p, (key, value));
            proof {
                let nv = entries_view(entries@);
                assert(nv =~= old_v.insert(p as int, (key@, value@)));
                assert forall|a: int, b: int| 0 <= a < b < nv.len() implies seq_lt(nv[a].0, nv[b].0) by {
                    if b == p {
                    } else if a == p {
                        if b > p + 1 {
                            lemma_seq_lt_transitive(key@, old_v[p as int].0, old_v[b - 1].0);
                        }
                    } else if a < p && b > p {
                        if b - 1 > p {
                            lemma_seq_lt_transitive(key@, old_v[p as int].0, old_v[b - 1].0);
                        }
                        lemma_seq_lt_transitive(old_v[a].0, key@, old_v[b - 1].0);
                    } else if a > p {
                        assert(nv[a] == old_v[a - 1]);
                        assert(nv[b] == old_v[b - 1]);
                    }
                }
            }
            self.entries = entries;
            proof {
                assert(self@ =~= old_v.insert(p as int, (key@, value@)));
                lemma_value_of_index(self@, p as int);
                assert forall|kk: Seq<char>| kk != key@ implies #[trigger] has_key(self@, kk) == has_key(old_v, kk) by {
                    if has_key(self@, kk) {
                        let i = choose|i: int| 0 <= i < self@.len() && self@[i].0 == kk;
                        if i < p {
                            assert(old_v[i].0 == kk);
                        } else {
                            assert(old_v[i - 1].0 == kk);
                        }
                    }
                    if has_key(old_v, kk) {
                        let i = choose|i: int| 0 <= i < old_v.len() && old_v[i].0 == kk;
                        if i < p {
                            assert(self@[i].0 == kk);
                        } else {
                            assert(self@[i + 1].0 == kk);
                        }
                    }
                }
                assert forall|kk: Seq<char>| kk != key@ implies #[trigger] value_of(self@, kk) == value_of(old_v, kk) by {
                    if has_key(old_v, kk) {
                        let i = choose|i: int| 0 <= i < old_v.len() && old_v[i].0 == kk;
                        lemma_value_of_index(old_v, i);
                        if i < p {
                            lemma_value_of_index(self@, i);
                        } else {
                            lemma_value_of_index(self@, i + 1);
                        }
                    } else {
                        lemma_value_of_absent(old_v, kk);
                        lemma_value_of_absent(self@, kk);
                    }
                }
            }
        }
    }
}

} // verus!
