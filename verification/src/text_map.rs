//! A map keyed by text, kept in ascending key order, as a `BTreeMap<String, V>`
//! would keep it.
use vstd::prelude::*;
use crate::text::{chars_of, same_text};

verus! {

/// Lexicographic order on texts by code point, the order of `String`'s `Ord`.
pub open spec fn text_lt(a: Seq<char>, b: Seq<char>) -> bool
    decreases a.len(),
{
    if a.len() == 0 {
        b.len() > 0
    } else if b.len() == 0 {
        false
    } else if a[0] != b[0] {
        (a[0] as u32) < (b[0] as u32)
    } else {
        text_lt(a.drop_first(), b.drop_first())
    }
}

/// No text comes before itself.
pub proof fn lemma_text_lt_irreflexive(a: Seq<char>)
    ensures
        !text_lt(a, a),
    decreases a.len(),
{
    if a.len() > 0 {
        lemma_text_lt_irreflexive(a.drop_first());
    }
}

/// The order is transitive.
pub proof fn lemma_text_lt_transitive(a: Seq<char>, b: Seq<char>, c: Seq<char>)
    requires
        text_lt(a, b),
        text_lt(b, c),
    ensures
        text_lt(a, c),
    decreases a.len(),
{
    if a.len() > 0 && b.len() > 0 && c.len() > 0 && a[0] == b[0] && b[0] == c[0] {
        lemma_text_lt_transitive(a.drop_first(), b.drop_first(), c.drop_first());
    }
}

/// Of two different texts, one comes first.
pub proof fn lemma_text_lt_total(a: Seq<char>, b: Seq<char>)
    requires
        a != b,
    ensures
        text_lt(a, b) || text_lt(b, a),
    decreases a.len(),
{
    if a.len() == 0 {
        assert(b.len() > 0) by {
            if b.len() == 0 {
                assert(a =~= b);
            }
        }
    } else if b.len() == 0 {
    } else if a[0] != b[0] {
        vstd::utf8::char_u32_cast(a[0], a[0] as u32);
        vstd::utf8::char_u32_cast(b[0], b[0] as u32);
        assert((a[0] as u32) != (b[0] as u32));
    } else {
        assert(a.drop_first() != b.drop_first()) by {
            if a.drop_first() == b.drop_first() {
                assert(a =~= seq![a[0]] + a.drop_first());
                assert(b =~= seq![b[0]] + b.drop_first());
            }
        }
        lemma_text_lt_total(a.drop_first(), b.drop_first());
    }
}

/// The order is asymmetric.
pub proof fn lemma_text_lt_asymmetric(a: Seq<char>, b: Seq<char>)
    requires
        text_lt(a, b),
    ensures
        !text_lt(b, a),
{
    if text_lt(b, a) {
        lemma_text_lt_transitive(a, b, a);
        lemma_text_lt_irreflexive(a);
    }
}

proof fn lemma_text_lt_common_prefix(a: Seq<char>, b: Seq<char>, i: int)
    requires
        0 <= i <= a.len(),
        i <= b.len(),
        forall|k: int| 0 <= k < i ==> a[k] == b[k],
    ensures
        text_lt(a, b) == text_lt(a.subrange(i, a.len() as int), b.subrange(i, b.len() as int)),
    decreases i,
{
    if i == 0 {
        assert(a.subrange(0, a.len() as int) =~= a);
        assert(b.subrange(0, b.len() as int) =~= b);
    } else {
        lemma_text_lt_common_prefix(a.drop_first(), b.drop_first(), i - 1);
        assert(a.drop_first().subrange(i - 1, a.drop_first().len() as int) =~= a.subrange(
            i,
            a.len() as int,
        ));
        assert(b.drop_first().subrange(i - 1, b.drop_first().len() as int) =~= b.subrange(
            i,
            b.len() as int,
        ));
    }
}

/// Whether `a` comes before `b` (`a < b` on `str`).
pub fn text_less(a: &str, b: &str) -> (r: bool)
    ensures
        r == text_lt(a@, b@),
{
    let x = chars_of(a);
    let y = chars_of(b);
    let mut i: usize = 0;
    while i < x.len() && i < y.len() && x[i] == y[i]
        invariant
            x@ == a@,
            y@ == b@,
            i <= x.len(),
            i <= y.len(),
            forall|k: int| 0 <= k < i ==> x@[k] == y@[k],
        decreases x.len() - i,
    {
        i = i + 1;
    }
    proof {
        lemma_text_lt_common_prefix(x@, y@, i as int);
    }
    let ghost xs = x@.subrange(i as int, x.len() as int);
    let ghost ys = y@.subrange(i as int, y.len() as int);
    if i == x.len() {
        i < y.len()
    } else if i == y.len() {
        false
    } else {
        assert(xs[0] == x@[i as int] && ys[0] == y@[i as int]);
        (x[i] as u32) < (y[i] as u32)
    }
}

/// Keys sorted strictly ascending: sorted and free of repeats.
pub open spec fn strictly_sorted(keys: Seq<Seq<char>>) -> bool {
    forall|i: int, j: int| 0 <= i < j < keys.len() ==> text_lt(#[trigger] keys[i], #[trigger] keys[j])
}

/// The key texts of a sequence of entries.
pub open spec fn keys_of<V>(es: Seq<(String, V)>) -> Seq<Seq<char>> {
    es.map_values(|e: (String, V)| e.0@)
}

/// A map from texts to values, holding its entries in ascending key order.
#[derive(Debug)]
pub struct TextMap<V> {
    entries: Vec<(String, V)>,
}

impl<V> TextMap<V> {
    /// The keys, in the order the map holds them.
    pub closed spec fn key_seq(self) -> Seq<Seq<char>> {
        keys_of(self.entries@)
    }

    /// The values, in key order.
    pub closed spec fn value_seq(self) -> Seq<V> {
        self.entries@.map_values(|e: (String, V)| e.1)
    }

    #[verifier::type_invariant]
    closed spec fn well_formed(self) -> bool {
        strictly_sorted(self.key_seq())
    }

    /// Index of `key` among the keys, if present.
    pub closed spec fn index_of(self, key: Seq<char>) -> int {
        choose|i: int| 0 <= i < self.key_seq().len() && self.key_seq()[i] == key
    }

    /// The map as a mathematical map from key text to value.
    pub closed spec fn as_map(self) -> Map<Seq<char>, V> {
        Map::new(
            |k: Seq<char>| self.key_seq().contains(k),
            |k: Seq<char>| self.value_seq()[self.index_of(k)],
        )
    }

    proof fn lemma_lookup(self, i: int)
        requires
            self.well_formed(),
            0 <= i < self.key_seq().len(),
        ensures
            self.as_map().contains_key(self.key_seq()[i]),
            self.as_map()[self.key_seq()[i]] == self.value_seq()[i],
    {
        let k = self.key_seq()[i];
        assert(self.key_seq().contains(k));
        let j = self.index_of(k);
        assert(0 <= j < self.key_seq().len() && self.key_seq()[j] == k);
        if j < i {
            lemma_text_lt_irreflexive(k);
        } else if i < j {
            lemma_text_lt_irreflexive(k);
        }
    }

    proof fn lemma_lookup_all(self)
        requires
            self.well_formed(),
        ensures
            forall|i: int|
                0 <= i < self.key_seq().len() ==> self.as_map().contains_key(
                    #[trigger] self.key_seq()[i],
                ) && self.as_map()[self.key_seq()[i]] == self.value_seq()[i],
            forall|k: Seq<char>|
                self.as_map().contains_key(k) ==> #[trigger] self.key_seq().contains(k),
    {
        assert forall|i: int| 0 <= i < self.key_seq().len() implies self.as_map().contains_key(
            #[trigger] self.key_seq()[i],
        ) && self.as_map()[self.key_seq()[i]] == self.value_seq()[i] by {
            self.lemma_lookup(i);
        }
    }

    /// An empty map.
    pub fn new() -> (r: Self)
        ensures
            r.as_map() == Map::<Seq<char>, V>::empty(),
            r.key_seq() == Seq::<Seq<char>>::empty(),
    {
        let r = TextMap { entries: Vec::new() };
        assert(r.as_map() =~= Map::<Seq<char>, V>::empty());
        assert(r.key_seq() =~= Seq::<Seq<char>>::empty());
        r
    }

    /// Number of entries.
    pub fn len(&self) -> (r: usize)
        ensures
            r == self.key_seq().len(),
    {
        self.entries.len()
    }

    /// The keys in ascending order, each once: exactly the keys of the map.
    pub fn keys(&self) -> (r: Vec<String>)
        ensures
            r@.len() == self.key_seq().len(),
            forall|i: int| 0 <= i < r@.len() ==> (#[trigger] r@[i])@ == self.key_seq()[i],
            strictly_sorted(self.key_seq()),
            forall|k: Seq<char>| self.as_map().contains_key(k) <==> #[trigger] self.key_seq().contains(k),
            self.as_map().dom().len() == self.key_seq().len(),
    {
        proof {
            use_type_invariant(self);
            self.lemma_lookup_all();
            self.lemma_dom_len();
        }
        let mut out: Vec<String> = Vec::new();
        let mut i: usize = 0;
        while i < self.entries.len()
            invariant
                i <= self.entries@.len(),
                self.key_seq().len() == self.entries@.len(),
                out@.len() == i,
                forall|k: int| 0 <= k < i ==> (#[trigger] out@[k])@ == self.key_seq()[k],
            decreases self.entries.len() - i,
        {
            out.push(self.entries[i].0.clone());
            i = i + 1;
        }
        out
    }

    proof fn lemma_dom_len(self)
        requires
            self.well_formed(),
        ensures
            self.as_map().dom().len() == self.key_seq().len(),
    {
        let ks = self.key_seq();
        assert(ks.no_duplicates()) by {
            assert forall|i: int, j: int| 0 <= i < ks.len() && 0 <= j < ks.len() && i != j implies ks[i] != ks[j] by {
                if i < j {
                    lemma_text_lt_irreflexive(ks[i]);
                } else {
                    lemma_text_lt_irreflexive(ks[j]);
                }
            }
        }
        ks.unique_seq_to_set();
        assert(self.as_map().dom() =~= ks.to_set());
    }

    /// The key at position `i` in key order.
    pub fn key_at(&self, i: usize) -> (r: &String)
        requires
            i < self.key_seq().len(),
        ensures
            r@ == self.key_seq()[i as int],
    {
        &self.entries[i].0
    }

    /// The value at position `i` in key order.
    pub fn value_at(&self, i: usize) -> (r: &V)
        requires
            i < self.key_seq().len(),
        ensures
            *r == self.value_seq()[i as int],
            *r == self.as_map()[self.key_seq()[i as int]],
    {
        proof {
            use_type_invariant(self);
            self.lemma_lookup(i as int);
        }
        &self.entries[i].1
    }

    /// Position at which `key` is or would be inserted: every key before it is
    /// smaller; the key there, if any, is `key` or larger.
    fn find_slot(&self, key: &str) -> (r: (usize, bool))
        ensures
            r.0 <= self.key_seq().len(),
            forall|m: int| 0 <= m < r.0 ==> text_lt(#[trigger] self.key_seq()[m], key@),
            r.1 <==> (r.0 < self.key_seq().len() && self.key_seq()[r.0 as int] == key@),
            !r.1 && r.0 < self.key_seq().len() ==> text_lt(key@, self.key_seq()[r.0 as int]),
    {
        let mut i: usize = 0;
        while i < self.entries.len()
            invariant
                i <= self.entries@.len(),
                self.key_seq().len() == self.entries@.len(),
                forall|m: int| 0 <= m < i ==> text_lt(#[trigger] self.key_seq()[m], key@),
            decreases self.entries.len() - i,
        {
            let k = self.entries[i].0.as_str();
            assert(k@ == self.key_seq()[i as int]);
            if !text_less(k, key) {
                if same_text(k, key) {
                    return (i, true);
                } else {
                    proof {
                        lemma_text_lt_total(k@, key@);
                    }
                    return (i, false);
                }
            }
            i = i + 1;
        }
        (i, false)
    }

    /// Whether `key` is in the map.
    pub fn contains_key(&self, key: &str) -> (r: bool)
        ensures
            r == self.as_map().contains_key(key@),
    {
        proof {
            use_type_invariant(self);
            self.lemma_lookup_all();
        }
        let (i, found) = self.find_slot(key);
        proof {
            if !found && self.key_seq().contains(key@) {
                let j = choose|j: int| 0 <= j < self.key_seq().len() && self.key_seq()[j] == key@;
                if j < i {
                    lemma_text_lt_irreflexive(key@);
                } else {
                    lemma_text_lt_asymmetric(key@, self.key_seq()[i as int]);
                    if j > i {
                        assert(text_lt(self.key_seq()[i as int], self.key_seq()[j]));
                    }
                    lemma_text_lt_irreflexive(key@);
                }
            }
        }
        found
    }

    /// The value stored under `key`, if any.
    pub fn get(&self, key: &str) -> (r: Option<&V>)
        ensures
            r == if self.as_map().contains_key(key@) {
                Some(&self.as_map()[key@])
            } else {
                None
            },
    {
        proof {
            use_type_invariant(self);
            self.lemma_lookup_all();
        }
        let present = self.contains_key(key);
        if !present {
            return None;
        }
        let (i, found) = self.find_slot(key);
        if found {
            proof {
                self.lemma_lookup(i as int);
            }
            Some(&self.entries[i].1)
        } else {
            proof {
                let j = choose|j: int| 0 <= j < self.key_seq().len() && self.key_seq()[j] == key@;
                if j < i {
                    lemma_text_lt_irreflexive(key@);
                } else {
                    if j > i {
                        assert(text_lt(self.key_seq()[i as int], self.key_seq()[j]));
                    }
                    lemma_text_lt_asymmetric(key@, self.key_seq()[i as int]);
                    lemma_text_lt_irreflexive(key@);
                }
            }
            None
        }
    }

    /// Stores `value` under `key`, replacing what was stored there.
    pub fn insert(&mut self, key: String, value: V)
        ensures
            final(self).as_map() == old(self).as_map().insert(key@, value),
    {
        proof {
            use_type_invariant(&*self);
            self.lemma_lookup_all();
        }
        let ghost old_self = *self;
        let ghost k = key@;
        let (i, found) = self.find_slot(key.as_str());
        let mut es: Vec<(String, V)> = Vec::new();
        std::mem::swap(&mut es, &mut self.entries);
        if found {
            es.set(i, (key, value));
            proof {
                assert(keys_of(es@) =~= old_self.key_seq());
            }
            self.entries = es;
            proof {
                assert(self.value_seq() =~= old_self.value_seq().update(i as int, value));
            }
        } else {
            es.insert(i, (key, value));
            proof {
                assert(keys_of(es@) =~= old_self.key_seq().insert(i as int, k));
                let ks = keys_of(es@);
                let oks = old_self.key_seq();
                assert forall|a: int, b: int| 0 <= a < b < ks.len() implies text_lt(
                    #[trigger] ks[a],
                    #[trigger] ks[b],
                ) by {
                    if b < i {
                        assert(text_lt(oks[a], oks[b]));
                    } else if b == i {
                        assert(text_lt(oks[a], k));
                    } else if a > i {
                        assert(text_lt(oks[a - 1], oks[b - 1]));
                    } else if a == i {
                        assert(text_lt(k, oks[i as int]));
                        if b - 1 > i {
                            assert(text_lt(oks[i as int], oks[b - 1]));
                            lemma_text_lt_transitive(k, oks[i as int], oks[b - 1]);
                        }
                    } else {
                        assert(text_lt(oks[a], oks[b - 1]));
                    }
                }
            }
            self.entries = es;
            proof {
                assert(self.key_seq() =~= old_self.key_seq().insert(i as int, k));
                assert(self.value_seq() =~= old_self.value_seq().insert(i as int, value));
            }
        }
        proof {
            assert(self.well_formed());
            self.lemma_lookup_all();
            let m1 = self.as_map();
            let m2 = old_self.as_map().insert(k, value);
            assert(self.key_seq()[i as int] == k);
            self.lemma_lookup(i as int);
            assert forall|x: Seq<char>| m1.contains_key(x) <==> m2.contains_key(x) by {
                if m2.contains_key(x) && x != k {
                    let j = choose|j: int| 0 <= j < old_self.key_seq().len() && old_self.key_seq()[j] == x;
                    if found || j < i {
                        assert(self.key_seq()[j] == x);
                    } else {
                        assert(self.key_seq()[j + 1] == x);
                    }
                }
                if m1.contains_key(x) && x != k {
                    let j = choose|j: int| 0 <= j < self.key_seq().len() && self.key_seq()[j] == x;
                    if found || j < i {
                        assert(old_self.key_seq()[j] == x);
                    } else {
                        assert(j != i);
                        assert(old_self.key_seq()[j - 1] == x);
                    }
                }
            }
            assert forall|x: Seq<char>| #[trigger] m1.contains_key(x) implies m1[x] == m2[x] by {
                if x != k {
                    let j = choose|j: int| 0 <= j < self.key_seq().len() && self.key_seq()[j] == x;
                    self.lemma_lookup(j);
                    if found || j < i {
                        old_self.lemma_lookup(j);
                    } else {
                        assert(j != i);
                        old_self.lemma_lookup(j - 1);
                    }
                }
            }
            assert(m1 =~= m2);
        }
    }

    /// Removes the entry under `key`, handing back its value.
    pub fn remove(&mut self, key: &str) -> (r: Option<V>)
        ensures
            final(self).as_map() == old(self).as_map().remove(key@),
            r == if old(self).as_map().contains_key(key@) {
                Some(old(self).as_map()[key@])
            } else {
                None
            },
    {
        proof {
            use_type_invariant(&*self);
            self.lemma_lookup_all();
        }
        let ghost old_self = *self;
        let present = self.contains_key(key);
        if !present {
            proof {
                assert(old_self.as_map().remove(key@) =~= old_self.as_map());
            }
            return None;
        }
        let (i, found) = self.find_slot(key);
        if !found {
            proof {
                let j = choose|j: int| 0 <= j < self.key_seq().len() && self.key_seq()[j] == key@;
                if j < i {
                    lemma_text_lt_irreflexive(key@);
                } else {
                    if j > i {
                        assert(text_lt(self.key_seq()[i as int], self.key_seq()[j]));
                    }
                    lemma_text_lt_asymmetric(key@, self.key_seq()[i as int]);
                    lemma_text_lt_irreflexive(key@);
                }
            }
            return None;
        }
        proof {
            old_self.lemma_lookup(i as int);
        }
        let mut es: Vec<(String, V)> = Vec::new();
        std::mem::swap(&mut es, &mut self.entries);
        let (_k, v) = es.remove(i);
        proof {
            assert(keys_of(es@) =~= old_self.key_seq().remove(i as int));
            let ks = keys_of(es@);
            let oks = old_self.key_seq();
            assert forall|a: int, b: int| 0 <= a < b < ks.len() implies text_lt(
                #[trigger] ks[a],
                #[trigger] ks[b],
            ) by {
                if b < i {
                    assert(text_lt(oks[a], oks[b]));
                } else if a < i {
                    assert(text_lt(oks[a], oks[b + 1]));
                } else {
                    assert(text_lt(oks[a + 1], oks[b + 1]));
                }
            }
        }
        self.entries = es;
        proof {
            let k = key@;
            let ks = self.key_seq();
            let oks = old_self.key_seq();
            assert(ks =~= oks.remove(i as int));
            assert(self.value_seq() =~= old_self.value_seq().remove(i as int));
            assert(self.well_formed());
            self.lemma_lookup_all();
            let m1 = self.as_map();
            let m2 = old_self.as_map().remove(k);
            assert forall|x: Seq<char>| m1.contains_key(x) <==> m2.contains_key(x) by {
                if m2.contains_key(x) {
                    let j = choose|j: int| 0 <= j < oks.len() && oks[j] == x;
                    assert(j != i);
                    if j < i {
                        assert(ks[j] == x);
                    } else {
                        assert(ks[j - 1] == x);
                    }
                }
                if m1.contains_key(x) {
                    let j = choose|j: int| 0 <= j < ks.len() && ks[j] == x;
                    if j < i {
                        assert(oks[j] == x);
                        assert(text_lt(oks[j], oks[i as int]));
                        if x == k {
                            lemma_text_lt_irreflexive(k);
                        }
                    } else {
                        assert(oks[j + 1] == x);
                        assert(text_lt(oks[i as int], oks[j + 1]));
                        if x == k {
                            lemma_text_lt_irreflexive(k);
                        }
                    }
                }
            }
            assert forall|x: Seq<char>| #[trigger] m1.contains_key(x) implies m1[x] == m2[x] by {
                let j = choose|j: int| 0 <= j < ks.len() && ks[j] == x;
                self.lemma_lookup(j);
                if j < i {
                    old_self.lemma_lookup(j);
                } else {
                    old_self.lemma_lookup(j + 1);
                }
            }
            assert(m1 =~= m2);
        }
        Some(v)
    }
}

} // verus!
