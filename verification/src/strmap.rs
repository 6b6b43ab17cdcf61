//! An ordered map keyed by strings.
//!
//! Entries are kept sorted by key in lexicographic character order, so
//! walking a map always visits keys in the same, deterministic order, the
//! way an ordered tree map would.  The view of a map is the mathematical
//! map from key text to value.

use vstd::prelude::*;

use crate::text::chars_of;

verus! {

/// Strict lexicographic order on character sequences.
pub open spec fn lex_lt(a: Seq<char>, b: Seq<char>) -> bool
    decreases a.len(),
{
    if a.len() == 0 {
        b.len() > 0
    } else if b.len() == 0 {
        false
    } else if a[0] < b[0] {
        true
    } else if a[0] == b[0] {
        lex_lt(a.drop_first(), b.drop_first())
    } else {
        false
    }
}

/// No sequence is below itself.
pub proof fn lemma_lex_irreflexive(a: Seq<char>)
    ensures
        !lex_lt(a, a),
    decreases a.len(),
{
    if a.len() > 0 {
        lemma_lex_irreflexive(a.drop_first());
    }
}

/// The order is transitive.
pub proof fn lemma_lex_transitive(a: Seq<char>, b: Seq<char>, c: Seq<char>)
    requires
        lex_lt(a, b),
        lex_lt(b, c),
    ensures
        lex_lt(a, c),
    decreases a.len(),
{
    if a.len() > 0 && b.len() > 0 && c.len() > 0 {
        if a[0] == b[0] && b[0] == c[0] {
            lemma_lex_transitive(a.drop_first(), b.drop_first(), c.drop_first());
        }
    }
}

/// Any two distinct sequences are ordered one way or the other.
pub proof fn lemma_lex_total(a: Seq<char>, b: Seq<char>)
    ensures
        a == b || lex_lt(a, b) || lex_lt(b, a),
    decreases a.len(),
{
    if a.len() > 0 && b.len() > 0 && a[0] == b[0] {
        lemma_lex_total(a.drop_first(), b.drop_first());
        if a.drop_first() == b.drop_first() {
            assert(a =~= seq![a[0]] + a.drop_first());
            assert(b =~= seq![b[0]] + b.drop_first());
        }
    } else if a.len() == 0 && b.len() == 0 {
        assert(a =~= b);
    }
}

/// Only one direction of the order can hold.
pub proof fn lemma_lex_asymmetric(a: Seq<char>, b: Seq<char>)
    requires
        lex_lt(a, b),
    ensures
        !lex_lt(b, a),
{
    if lex_lt(b, a) {
        lemma_lex_transitive(a, b, a);
        lemma_lex_irreflexive(a);
    }
}

/// `a` is `b` or comes before it in text order.
pub open spec fn text_le(a: Seq<char>, b: Seq<char>) -> bool {
    a == b || lex_lt(a, b)
}

/// Text order as a relation.
pub open spec fn text_order() -> spec_fn(Seq<char>, Seq<char>) -> bool {
    |a: Seq<char>, b: Seq<char>| text_le(a, b)
}

/// Text order is a total order.
pub proof fn lemma_text_order_total()
    ensures
        vstd::relations::total_ordering(text_order()),
{
    assert forall|a: Seq<char>, b: Seq<char>|
        #[trigger] text_order()(a, b) && #[trigger] text_order()(b, a) implies a == b by {
        if a != b {
            lemma_lex_asymmetric(a, b);
        }
    }
    assert forall|a: Seq<char>, b: Seq<char>, c: Seq<char>|
        #[trigger] text_order()(a, b) && #[trigger] text_order()(b, c) implies text_order()(a, c) by {
        if a != b && b != c {
            lemma_lex_transitive(a, b, c);
        }
    }
    assert forall|a: Seq<char>, b: Seq<char>| #[trigger] text_order()(a, b) || #[trigger] text_order()(b, a) by {
        lemma_lex_total(a, b);
    }
}

/// Compares two character slices in lexicographic order.
pub fn chars_less(a: &[char], b: &[char]) -> (r: bool)
    ensures
        r == lex_lt(a@, b@),
{
    let mut i: usize = 0;
    assert(a@.subrange(0, a@.len() as int) =~= a@);
    assert(b@.subrange(0, b@.len() as int) =~= b@);
    while i < a.len() && i < b.len()
        invariant
            i <= a@.len(),
            i <= b@.len(),
            a@.subrange(0, i as int) == b@.subrange(0, i as int),
            lex_lt(a@, b@) == lex_lt(a@.subrange(i as int, a@.len() as int), b@.subrange(i as int, b@.len() as int)),
        decreases a@.len() - i,
    {
        let ghost sa = a@.subrange(i as int, a@.len() as int);
        let ghost sb = b@.subrange(i as int, b@.len() as int);
        if a[i] < b[i] {
            assert(sa[0] == a@[i as int] && sb[0] == b@[i as int]);
            return true;
        }
        if a[i] > b[i] {
            assert(sa[0] == a@[i as int] && sb[0] == b@[i as int]);
            return false;
        }
        proof {
            assert(sa.drop_first() =~= a@.subrange(i + 1, a@.len() as int));
            assert(sb.drop_first() =~= b@.subrange(i + 1, b@.len() as int));
            assert(a@.subrange(0, i + 1) =~= a@.subrange(0, i as int).push(a@[i as int]));
            assert(b@.subrange(0, i + 1) =~= b@.subrange(0, i as int).push(b@[i as int]));
        }
        i = i + 1;
    }
    i < b.len()
}

/// Compares two strings in lexicographic character order.
pub fn str_less(a: &str, b: &str) -> (r: bool)
    ensures
        r == lex_lt(a@, b@),
{
    let va = chars_of(a);
    let vb = chars_of(b);
    chars_less(va.as_slice(), vb.as_slice())
}

/// Keys strictly increasing along `s`.
pub open spec fn sorted_keys<V>(s: Seq<(String, V)>) -> bool {
    forall|i: int, j: int| 0 <= i < j < s.len() ==> lex_lt(#[trigger] s[i].0@, #[trigger] s[j].0@)
}

/// The map described by a list of entries with distinct keys.
pub open spec fn entries_map<V>(s: Seq<(String, V)>) -> Map<Seq<char>, V> {
    Map::new(
        |k: Seq<char>| exists|i: int| 0 <= i < s.len() && #[trigger] s[i].0@ == k,
        |k: Seq<char>| s[choose|i: int| 0 <= i < s.len() && #[trigger] s[i].0@ == k].1,
    )
}

/// An ordered map from strings to `V`.
#[derive(Debug, PartialEq, Eq)]
pub struct StrMap<V> {
    entries: Vec<(String, V)>,
}

impl<V> View for StrMap<V> {
    type V = Map<Seq<char>, V>;

    closed spec fn view(&self) -> Map<Seq<char>, V> {
        entries_map(self.entries@)
    }
}

impl<V> StrMap<V> {
    /// The entries in key order.
    pub closed spec fn entries_view(&self) -> Seq<(String, V)> {
        self.entries@
    }

    /// The keys in order.
    pub open spec fn keys_view(&self) -> Seq<Seq<char>> {
        self.entries_view().map_values(|e: (String, V)| e.0@)
    }

    /// The facts every map satisfies: keys strictly increasing, and the
    /// view is exactly the map of the entries.
    pub open spec fn well_formed(&self) -> bool {
        &&& self@.dom().finite()
        &&& self@.dom().len() == self.entries_view().len()
        &&& forall|i: int|
            0 <= i < self.entries_view().len() ==> #[trigger] self@.contains_key(
                self.entries_view()[i].0@,
            ) && self@[self.entries_view()[i].0@] == self.entries_view()[i].1
        &&& forall|k: Seq<char>|
            #[trigger] self@.contains_key(k) ==> exists|i: int|
                0 <= i < self.entries_view().len() && #[trigger] self.entries_view()[i].0@ == k
        &&& forall|i: int, j: int|
            0 <= i < j < self.entries_view().len() ==> lex_lt(
                #[trigger] self.entries_view()[i].0@,
                #[trigger] self.entries_view()[j].0@,
            )
    }

    proof fn lemma_wf(&self)
        requires
            self.inv(),
        ensures
            self.well_formed(),
            self@ == entries_map(self.entries_view()),
            self@.dom().finite(),
            self@.dom().len() == self.entries_view().len(),
            forall|i: int|
                0 <= i < self.entries_view().len() ==> #[trigger] self@.contains_key(
                    self.entries_view()[i].0@,
                ) && self@[self.entries_view()[i].0@] == self.entries_view()[i].1,
            forall|k: Seq<char>|
                #[trigger] self@.contains_key(k) ==> exists|i: int|
                    0 <= i < self.entries_view().len() && #[trigger] self.entries_view()[i].0@ == k,
            forall|i: int, j: int|
                0 <= i < j < self.entries_view().len() ==> lex_lt(
                    #[trigger] self.entries_view()[i].0@,
                    #[trigger] self.entries_view()[j].0@,
                ),
    {
        lemma_entries_map_facts(self.entries@);
    }

    #[verifier::type_invariant]
    closed spec fn inv(&self) -> bool {
        sorted_keys(self.entries@)
    }

    /// An empty map.
    pub fn new() -> (m: Self)
        ensures
            m@ == Map::<Seq<char>, V>::empty(),
            m.entries_view().len() == 0,
            m.well_formed(),
    {
        let m = StrMap { entries: Vec::new() };
        proof {
            lemma_entries_map_facts(m.entries@);
            assert(entries_map(m.entries@) =~= Map::<Seq<char>, V>::empty());
        }
        m
    }

    /// Number of entries.
    pub fn len(&self) -> (n: usize)
        ensures
            self.well_formed(),
            n == self.entries_view().len(),
            n == self@.dom().len(),
    {
        proof {
            use_type_invariant(self);
            self.lemma_wf();
        }
        self.entries.len()
    }

    /// Whether the map has no entries.
    pub fn is_empty(&self) -> (b: bool)
        ensures
            b == (self.entries_view().len() == 0),
            b == (self@ == Map::<Seq<char>, V>::empty()),
    {
        proof {
            use_type_invariant(self);
            self.lemma_wf();
            if self.entries@.len() > 0 {
                assert(self@.contains_key(self.entries@[0].0@));
            } else {
                assert(self@ =~= Map::<Seq<char>, V>::empty());
            }
        }
        self.entries.len() == 0
    }

    /// Key of the `i`-th entry in key order.
    pub fn key_at(&self, i: usize) -> (k: &String)
        requires
            i < self.entries_view().len(),
        ensures
            *k == self.entries_view()[i as int].0,
    {
        &self.entries[i].0
    }

    /// Value of the `i`-th entry in key order.
    pub fn value_at(&self, i: usize) -> (v: &V)
        requires
            i < self.entries_view().len(),
        ensures
            *v == self.entries_view()[i as int].1,
    {
        &self.entries[i].1
    }

    /// Position of `key`, if present.
    pub fn find(&self, key: &str) -> (r: Option<usize>)
        ensures
            self.well_formed(),
            match r {
                Some(i) => i < self.entries_view().len() && self.entries_view()[i as int].0@ == key@,
                None => !self@.contains_key(key@),
            },
    {
        proof {
            use_type_invariant(self);
            self.lemma_wf();
        }
        let kv = chars_of(key);
        let mut i: usize = 0;
        while i < self.entries.len()
            invariant
                kv@ == key@,
                self.well_formed(),
                i <= self.entries@.len(),
                forall|j: int| 0 <= j < i ==> #[trigger] self.entries@[j].0@ != key@,
            decreases self.entries@.len() - i,
        {
            if self.entries[i].0 == key.to_owned() {
                return Some(i);
            }
            i = i + 1;
        }
        proof {
            use_type_invariant(self);
            self.lemma_wf();
        }
        None
    }

    /// The value stored under `key`, if any.
    pub fn get(&self, key: &str) -> (r: Option<&V>)
        ensures
            self.well_formed(),
            match r {
                Some(v) => self@.contains_key(key@) && *v == self@[key@],
                None => !self@.contains_key(key@),
            },
    {
        proof {
            use_type_invariant(self);
            self.lemma_wf();
        }
        match self.find(key) {
            Some(i) => {
                proof {
                    assert(self@.contains_key(self.entries_view()[i as int].0@));
                }
                Some(&self.entries[i].1)
            },
            None => None,
        }
    }

    /// Whether `key` has an entry.
    pub fn contains_key(&self, key: &str) -> (b: bool)
        ensures
            b == self@.contains_key(key@),
    {
        proof {
            use_type_invariant(self);
            self.lemma_wf();
        }
        self.find(key).is_some()
    }

    /// Stores `value` under `key`, replacing any earlier value, and returns
    /// the earlier value.
    pub fn insert(&mut self, key: String, value: V) -> (old_v: Option<V>)
        ensures
            final(self)@ == old(self)@.insert(key@, value),
            final(self).well_formed(),
            match old_v {
                Some(v) => old(self)@.contains_key(key@) && v == old(self)@[key@],
                None => !old(self)@.contains_key(key@),
            },
    {
        proof {
            use_type_invariant(&*self);
            self.lemma_wf();
        }
        let ghost old_entries = self.entries@;
        let kv = chars_of(key.as_str());
        let mut i: usize = 0;
        while i < self.entries.len()
            invariant
                kv@ == key@,
                self.entries@ == old_entries,
                sorted_keys(old_entries),
                i <= old_entries.len(),
                forall|j: int| 0 <= j < i ==> lex_lt(#[trigger] old_entries[j].0@, key@),
            ensures
                self.entries@ == old_entries,
                i <= old_entries.len(),
                forall|j: int| 0 <= j < i ==> lex_lt(#[trigger] old_entries[j].0@, key@),
                i < old_entries.len() ==> !lex_lt(old_entries[i as int].0@, key@),
            decreases old_entries.len() - i,
        {
            let ek = chars_of(self.entries[i].0.as_str());
            if !chars_less(ek.as_slice(), kv.as_slice()) {
                break;
            }
            i = i + 1;
        }
        proof {
            lemma_entries_map_facts(old_entries);
        }
        if i < self.entries.len() && self.entries[i].0 == key {
            let ghost k0 = old_entries[i as int].0;
            let mut pair = (key, value);
            let ghost new_entries = old_entries.update(i as int, pair);
            proof {
                assert forall|a: int, b: int| 0 <= a < b < new_entries.len() implies lex_lt(
                    #[trigger] new_entries[a].0@,
                    #[trigger] new_entries[b].0@,
                ) by {
                    assert(old_entries[a].0@ == new_entries[a].0@ || a == i);
                    assert(old_entries[b].0@ == new_entries[b].0@ || b == i);
                }
            }
            let mut entries: Vec<(String, V)> = Vec::new();
            std::mem::swap(&mut entries, &mut self.entries);
            entries.set_and_swap(i, &mut pair);
            assert(entries@ == new_entries);
            self.entries = entries;
            proof {
                lemma_entries_map_facts(self.entries@);
                assert(self.entries@ == new_entries);
                assert(entries_map(self.entries@) =~= entries_map(old_entries).insert(key@, value))
                    by {
                    assert forall|k: Seq<char>| #[trigger]
                        entries_map(self.entries@).contains_key(k) implies entries_map(
                        old_entries,
                    ).insert(key@, value).contains_key(k) by {
                        let j = choose|j: int| 0 <= j < new_entries.len() && #[trigger] new_entries[j].0@ == k;
                        if j != i {
                            assert(old_entries[j].0@ == k);
                        }
                    }
                    assert forall|k: Seq<char>| #[trigger]
                        entries_map(old_entries).insert(key@, value).contains_key(k) implies entries_map(
                        self.entries@,
                    ).contains_key(k) && entries_map(self.entries@)[k] == entries_map(old_entries).insert(
                        key@,
                        value,
                    )[k] by {
                        if k == key@ {
                            assert(new_entries[i as int].0@ == k);
                        } else {
                            let j = choose|j: int| 0 <= j < old_entries.len() && #[trigger] old_entries[j].0@ == k;
                            assert(new_entries[j].0@ == k);
                        }
                    }
                }
            }
            proof {
                use_type_invariant(&*self);
                self.lemma_wf();
            }
            Some(pair.1)
        } else {
            let ghost pair = (key, value);
            let ghost new_entries = old_entries.insert(i as int, pair);
            proof {
                if i < old_entries.len() {
                    lemma_lex_total(old_entries[i as int].0@, key@);
                }
                assert forall|a: int, b: int| 0 <= a < b < new_entries.len() implies lex_lt(
                    #[trigger] new_entries[a].0@,
                    #[trigger] new_entries[b].0@,
                ) by {
                    if b < i {
                    } else if b == i {
                        assert(new_entries[a] == old_entries[a]);
                    } else if a == i {
                        assert(new_entries[b] == old_entries[b - 1]);
                        if b - 1 > i {
                            lemma_lex_transitive(key@, old_entries[i as int].0@, old_entries[b - 1].0@);
                        }
                    } else if a < i {
                        assert(new_entries[b] == old_entries[b - 1]);
                        if b - 1 > a {
                        } else {
                        }
                    } else {
                        assert(new_entries[a] == old_entries[a - 1]);
                        assert(new_entries[b] == old_entries[b - 1]);
                    }
                }
                assert(!entries_map(old_entries).contains_key(key@)) by {
                    if entries_map(old_entries).contains_key(key@) {
                        let j = choose|j: int| 0 <= j < old_entries.len() && #[trigger] old_entries[j].0@ == key@;
                        if j < i {
                            lemma_lex_irreflexive(key@);
                        } else if j == i {
                        } else {
                            lemma_lex_transitive(key@, old_entries[i as int].0@, old_entries[j].0@);
                            lemma_lex_irreflexive(key@);
                        }
                    }
                }
            }
            let mut entries: Vec<(String, V)> = Vec::new();
            std::mem::swap(&mut entries, &mut self.entries);
            entries.insert(i, (key, value));
            assert(entries@ == new_entries);
            self.entries = entries;
            proof {
                assert(self.entries@ == new_entries);
                lemma_entries_map_facts(new_entries);
                assert(entries_map(new_entries) =~= entries_map(old_entries).insert(pair.0@, pair.1)) by {
                    assert forall|k: Seq<char>| #[trigger]
                        entries_map(new_entries).contains_key(k) implies entries_map(
                        old_entries,
                    ).insert(pair.0@, pair.1).contains_key(k) by {
                        let j = choose|j: int| 0 <= j < new_entries.len() && #[trigger] new_entries[j].0@ == k;
                        if j < i {
                            assert(old_entries[j].0@ == k);
                        } else if j > i {
                            assert(old_entries[j - 1].0@ == k);
                        }
                    }
                    assert forall|k: Seq<char>| #[trigger]
                        entries_map(old_entries).insert(pair.0@, pair.1).contains_key(k) implies entries_map(
                        new_entries,
                    ).contains_key(k) && entries_map(new_entries)[k] == entries_map(old_entries).insert(
                        pair.0@,
                        pair.1,
                    )[k] by {
                        if k == pair.0@ {
                            assert(new_entries[i as int].0@ == k);
                        } else {
                            let j = choose|j: int| 0 <= j < old_entries.len() && #[trigger] old_entries[j].0@ == k;
                            if j < i {
                                assert(new_entries[j].0@ == k);
                            } else {
                                assert(new_entries[j + 1].0@ == k);
                            }
                        }
                    }
                }
            }
            proof {
                use_type_invariant(&*self);
                self.lemma_wf();
            }
            None
        }
    }
}

impl<V: Clone> Clone for StrMap<V> {
    /// A map with the same keys, each value cloned.
    fn clone(&self) -> (r: Self)
        ensures
            r@.dom() == self@.dom(),
    {
        let n = self.len();
        let mut r: StrMap<V> = StrMap::new();
        let mut i: usize = 0;
        while i < n
            invariant
                self.well_formed(),
                n == self.entries_view().len(),
                i <= n,
                forall|k: Seq<char>|
                    #[trigger] r@.contains_key(k) <==> exists|j: int|
                        0 <= j < i && #[trigger] self.entries_view()[j].0@ == k,
            decreases n - i,
        {
            r.insert(self.key_at(i).clone(), self.value_at(i).clone());
            i = i + 1;
        }
        proof {
            assert forall|k: Seq<char>| #[trigger] self@.contains_key(k) implies r@.contains_key(k) by {
                let j = choose|j: int| 0 <= j < self.entries_view().len() && #[trigger] self.entries_view()[j].0@ == k;
            }
            assert forall|k: Seq<char>| #[trigger] r@.contains_key(k) implies self@.contains_key(k) by {
                let j = choose|j: int| 0 <= j < i && #[trigger] self.entries_view()[j].0@ == k;
                assert(self@.contains_key(self.entries_view()[j].0@));
            }
            assert(r@.dom() =~= self@.dom());
        }
        r
    }
}

impl<V: Copy> StrMap<V> {
    /// An equal, independently owned map.
    pub fn copied(&self) -> (r: Self)
        ensures
            r@ == self@,
    {
        let n = self.len();
        let mut r: StrMap<V> = StrMap::new();
        let mut i: usize = 0;
        while i < n
            invariant
                self.well_formed(),
                n == self.entries_view().len(),
                i <= n,
                forall|k: Seq<char>|
                    #[trigger] r@.contains_key(k) <==> exists|j: int|
                        0 <= j < i && #[trigger] self.entries_view()[j].0@ == k,
                forall|k: Seq<char>| #[trigger] r@.contains_key(k) ==> r@[k] == self@[k],
            decreases n - i,
        {
            proof {
                assert(self@.contains_key(self.entries_view()[i as int].0@));
            }
            r.insert(self.key_at(i).clone(), *self.value_at(i));
            i = i + 1;
        }
        proof {
            assert forall|k: Seq<char>| #[trigger] self@.contains_key(k) implies r@.contains_key(k) by {
                let j = choose|j: int| 0 <= j < self.entries_view().len() && #[trigger] self.entries_view()[j].0@ == k;
            }
            assert forall|k: Seq<char>| #[trigger] r@.contains_key(k) implies self@.contains_key(k) by {
                let j = choose|j: int| 0 <= j < i && #[trigger] self.entries_view()[j].0@ == k;
                assert(self@.contains_key(self.entries_view()[j].0@));
            }
            assert(r@ =~= self@);
        }
        r
    }
}

impl<V> StrMap<V> {
    /// Replaces the value of the `i`-th entry in key order, keeping its
    /// key, and returns the value it held.
    pub fn set_value_at(&mut self, i: usize, value: V) -> (old_v: V)
        requires
            i < old(self).entries_view().len(),
        ensures
            old_v == old(self).entries_view()[i as int].1,
            final(self).entries_view() == old(self).entries_view().update(
                i as int,
                (old(self).entries_view()[i as int].0, value),
            ),
            final(self)@ == old(self)@.insert(old(self).entries_view()[i as int].0@, value),
            final(self).well_formed(),
    {
        proof {
            use_type_invariant(&*self);
            self.lemma_wf();
        }
        let ghost old_entries = self.entries@;
        let key = self.entries[i].0.clone();
        let ghost k0 = old_entries[i as int].0;
        let mut pair = (key, value);
        let ghost new_entries = old_entries.update(i as int, pair);
        proof {
            assert forall|a: int, b: int| 0 <= a < b < new_entries.len() implies lex_lt(
                #[trigger] new_entries[a].0@,
                #[trigger] new_entries[b].0@,
            ) by {
                assert(old_entries[a].0@ == new_entries[a].0@);
                assert(old_entries[b].0@ == new_entries[b].0@);
            }
        }
        let mut entries: Vec<(String, V)> = Vec::new();
        std::mem::swap(&mut entries, &mut self.entries);
        entries.set_and_swap(i, &mut pair);
        assert(entries@ == new_entries);
        self.entries = entries;
        proof {
            lemma_entries_map_facts(self.entries@);
            lemma_entries_map_facts(old_entries);
            assert(entries_map(self.entries@) =~= entries_map(old_entries).insert(k0@, value)) by {
                assert forall|k: Seq<char>| #[trigger]
                    entries_map(self.entries@).contains_key(k) implies entries_map(old_entries).insert(
                    k0@,
                    value,
                ).contains_key(k) by {
                    let j = choose|j: int| 0 <= j < new_entries.len() && #[trigger] new_entries[j].0@ == k;
                    if j != i {
                        assert(old_entries[j].0@ == k);
                    }
                }
                assert forall|k: Seq<char>| #[trigger]
                    entries_map(old_entries).insert(k0@, value).contains_key(k) implies entries_map(
                    self.entries@,
                ).contains_key(k) && entries_map(self.entries@)[k] == entries_map(old_entries).insert(
                    k0@,
                    value,
                )[k] by {
                    if k == k0@ {
                        assert(new_entries[i as int].0@ == k);
                    } else {
                        let j = choose|j: int| 0 <= j < old_entries.len() && #[trigger] old_entries[j].0@ == k;
                        assert(new_entries[j].0@ == k);
                    }
                }
            }
            use_type_invariant(&*self);
            self.lemma_wf();
        }
        pair.1
    }

    /// Removes the `i`-th entry in key order and returns it.
    pub fn remove_at(&mut self, i: usize) -> (e: (String, V))
        requires
            i < old(self).entries_view().len(),
        ensures
            e == old(self).entries_view()[i as int],
            final(self)@ == old(self)@.remove(e.0@),
            final(self).well_formed(),
            final(self).entries_view() == old(self).entries_view().remove(i as int),
    {
        proof {
            use_type_invariant(&*self);
            self.lemma_wf();
        }
        let ghost old_entries = self.entries@;
        let ghost new_entries = old_entries.remove(i as int);
        proof {
            assert forall|a: int, b: int| 0 <= a < b < new_entries.len() implies lex_lt(
                #[trigger] new_entries[a].0@,
                #[trigger] new_entries[b].0@,
            ) by {
                if a < i {
                    assert(new_entries[a] == old_entries[a]);
                } else {
                    assert(new_entries[a] == old_entries[a + 1]);
                }
                if b < i {
                    assert(new_entries[b] == old_entries[b]);
                } else {
                    assert(new_entries[b] == old_entries[b + 1]);
                }
            }
        }
        let mut entries: Vec<(String, V)> = Vec::new();
        std::mem::swap(&mut entries, &mut self.entries);
        let e = entries.remove(i);
        assert(entries@ == new_entries);
        self.entries = entries;
        proof {
            lemma_entries_map_facts(new_entries);
            lemma_entries_map_facts(old_entries);
            let k = e.0@;
            assert(entries_map(new_entries) =~= entries_map(old_entries).remove(k)) by {
                assert forall|x: Seq<char>| #[trigger] entries_map(new_entries).contains_key(x) implies entries_map(
                    old_entries,
                ).remove(k).contains_key(x) && entries_map(new_entries)[x] == entries_map(old_entries)[x] by {
                    let j = choose|j: int| 0 <= j < new_entries.len() && #[trigger] new_entries[j].0@ == x;
                    if j < i {
                        assert(old_entries[j] == new_entries[j]);
                        lemma_lex_irreflexive(x);
                    } else {
                        assert(old_entries[j + 1] == new_entries[j]);
                        lemma_lex_irreflexive(x);
                    }
                }
                assert forall|x: Seq<char>| #[trigger] entries_map(old_entries).remove(k).contains_key(x) implies entries_map(
                    new_entries,
                ).contains_key(x) by {
                    let j = choose|j: int| 0 <= j < old_entries.len() && #[trigger] old_entries[j].0@ == x;
                    if j < i {
                        assert(new_entries[j].0@ == x);
                    } else if j > i {
                        assert(new_entries[j - 1].0@ == x);
                    }
                }
            }
            use_type_invariant(&*self);
            self.lemma_wf();
        }
        e
    }
}

/// Facts about the map of a sorted entry list: each entry's key maps to
/// its value, and the domain has one key per entry.
pub proof fn lemma_entries_map_facts<V>(s: Seq<(String, V)>)
    requires
        sorted_keys(s),
    ensures
        forall|i: int|
            0 <= i < s.len() ==> #[trigger] entries_map(s).contains_key(s[i].0@) && entries_map(s)[s[i].0@]
                == s[i].1,
        forall|k: Seq<char>|
            #[trigger] entries_map(s).contains_key(k) ==> exists|i: int|
                0 <= i < s.len() && #[trigger] s[i].0@ == k,
        entries_map(s).dom().finite(),
        entries_map(s).dom().len() == s.len(),
    decreases s.len(),
{
    assert forall|i: int| 0 <= i < s.len() implies #[trigger] entries_map(s).contains_key(s[i].0@)
        && entries_map(s)[s[i].0@] == s[i].1 by {
        let j = choose|j: int| 0 <= j < s.len() && #[trigger] s[j].0@ == s[i].0@;
        if j != i {
            if j < i {
                lemma_lex_irreflexive(s[i].0@);
            } else {
                lemma_lex_irreflexive(s[i].0@);
            }
        }
    }
    if s.len() == 0 {
        assert(entries_map(s).dom() =~= Set::<Seq<char>>::empty());
    } else {
        let t = s.drop_last();
        assert(sorted_keys(t)) by {
            assert forall|i: int, j: int| 0 <= i < j < t.len() implies lex_lt(
                #[trigger] t[i].0@,
                #[trigger] t[j].0@,
            ) by {
                assert(t[i] == s[i] && t[j] == s[j]);
            }
        }
        lemma_entries_map_facts(t);
        let last = s.last().0@;
        assert(!entries_map(t).contains_key(last)) by {
            if entries_map(t).contains_key(last) {
                let j = choose|j: int| 0 <= j < t.len() && #[trigger] t[j].0@ == last;
                assert(s[j].0@ == last);
                lemma_lex_irreflexive(last);
            }
        }
        assert(entries_map(s).dom() =~= entries_map(t).dom().insert(last)) by {
            assert forall|k: Seq<char>| #[trigger] entries_map(s).dom().contains(k) implies entries_map(
                t,
            ).dom().insert(last).contains(k) by {
                let j = choose|j: int| 0 <= j < s.len() && #[trigger] s[j].0@ == k;
                if j < s.len() - 1 {
                    assert(t[j].0@ == k);
                }
            }
            assert forall|k: Seq<char>| #[trigger] entries_map(t).dom().insert(last).contains(k) implies entries_map(
                s,
            ).dom().contains(k) by {
                if k != last {
                    let j = choose|j: int| 0 <= j < t.len() && #[trigger] t[j].0@ == k;
                    assert(s[j].0@ == k);
                } else {
                    assert(s[s.len() - 1].0@ == k);
                }
            }
        }
    }
}


/// Listing a finite set gives each element once.
proof fn lemma_to_seq_distinct<A>(s: Set<A>)
    requires
        s.finite(),
    ensures
        s.to_seq().len() == s.len(),
        s.to_seq().no_duplicates(),
        s.to_seq().to_set() == s,
    decreases s.len(),
{
    s.lemma_to_seq_to_set_id();
    if s.len() > 0 {
        let x = s.choose();
        let rest = s.remove(x);
        lemma_to_seq_distinct(rest);
        let r = rest.to_seq();
        assert(!r.contains(x)) by {
            if r.contains(x) {
                assert(r.to_set().contains(x));
            }
        }
        let t = Seq::<A>::empty().push(x) + r;
        assert(t == s.to_seq());
        assert forall|i: int, j: int| 0 <= i < t.len() && 0 <= j < t.len() && i != j implies t[i] != t[j] by {
            if i == 0 {
                assert(t[j] == r[j - 1]);
            } else if j == 0 {
                assert(t[i] == r[i - 1]);
            } else {
                assert(t[i] == r[i - 1] && t[j] == r[j - 1]);
            }
        }
    }
}

/// Two duplicate-free sequences with the same elements have the same
/// multiset.
proof fn lemma_same_elements_multiset<A>(a: Seq<A>, b: Seq<A>)
    requires
        a.no_duplicates(),
        b.no_duplicates(),
        a.to_set() == b.to_set(),
    ensures
        a.to_multiset() == b.to_multiset(),
{
    broadcast use vstd::seq_lib::to_multiset_contains;

    a.lemma_multiset_has_no_duplicates();
    b.lemma_multiset_has_no_duplicates();
    assert forall|x: A| a.to_multiset().count(x) == b.to_multiset().count(x) by {
        if a.contains(x) {
            assert(a.to_set().contains(x));
            assert(b.to_set().contains(x));
            assert(a.to_multiset().contains(x));
            assert(b.to_multiset().contains(x));
        } else {
            if b.contains(x) {
                assert(b.to_set().contains(x));
            }
        }
    }
    assert(a.to_multiset() =~= b.to_multiset());
}

impl<V> StrMap<V> {
    /// The keys of a map, in order, are its key set sorted by text order.
    pub proof fn lemma_keys_in_text_order(&self)
        requires
            self.well_formed(),
        ensures
            self.keys_view() == self@.dom().to_sorted_seq(text_order()),
    {
        let ks = self.keys_view();
        let d = self@.dom();
        let es = self.entries_view();
        lemma_text_order_total();
        lemma_to_seq_distinct(d);
        d.to_seq().lemma_sort_by_ensures(text_order());
        assert(vstd::relations::sorted_by(ks, text_order())) by {
            assert forall|i: int, j: int| 0 <= i < j < ks.len() implies #[trigger] text_order()(ks[i], ks[j]) by {
                assert(ks[i] == es[i].0@ && ks[j] == es[j].0@);
            }
        }
        assert(ks.no_duplicates()) by {
            assert forall|i: int, j: int| 0 <= i < ks.len() && 0 <= j < ks.len() && i != j implies ks[i] != ks[j] by {
                assert(ks[i] == es[i].0@ && ks[j] == es[j].0@);
                if i < j {
                    lemma_lex_irreflexive(ks[i]);
                } else {
                    lemma_lex_irreflexive(ks[j]);
                }
            }
        }
        assert(ks.to_set() =~= d) by {
            assert forall|k: Seq<char>| ks.to_set().contains(k) implies d.contains(k) by {
                let i = choose|i: int| 0 <= i < ks.len() && ks[i] == k;
                assert(ks[i] == es[i].0@);
            }
            assert forall|k: Seq<char>| d.contains(k) implies ks.to_set().contains(k) by {
                assert(self@.contains_key(k));
                let i = choose|i: int| 0 <= i < es.len() && #[trigger] es[i].0@ == k;
                assert(ks[i] == k);
            }
        }
        lemma_same_elements_multiset(ks, d.to_seq());
        vstd::seq_lib::lemma_sorted_unique(ks, d.to_sorted_seq(text_order()), text_order());
    }
}

} // verus!
