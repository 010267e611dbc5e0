//! Maps keyed by text, kept in key order (the order of a `BTreeMap<String, _>`:
//! code point by code point, a proper prefix first).
use vstd::prelude::*;
use crate::text::chars_of;

verus! {

/// `a` comes before `b` in the order of `String`.
pub open spec fn key_lt(a: Seq<char>, b: Seq<char>) -> bool
    decreases a.len(),
{
    if a.len() == 0 {
        b.len() > 0
    } else if b.len() == 0 {
        false
    } else if a[0] != b[0] {
        (a[0] as u32) < (b[0] as u32)
    } else {
        key_lt(a.skip(1), b.skip(1))
    }
}

pub proof fn lemma_key_lt_irreflexive(a: Seq<char>)
    ensures
        !key_lt(a, a),
    decreases a.len(),
{
    if a.len() > 0 {
        lemma_key_lt_irreflexive(a.skip(1));
    }
}

pub proof fn lemma_key_lt_transitive(a: Seq<char>, b: Seq<char>, c: Seq<char>)
    requires
        key_lt(a, b),
        key_lt(b, c),
    ensures
        key_lt(a, c),
    decreases a.len(),
{
    if a.len() > 0 && b.len() > 0 && c.len() > 0 {
        if a[0] == b[0] && b[0] == c[0] {
            lemma_key_lt_transitive(a.skip(1), b.skip(1), c.skip(1));
        } else {
            lemma_char_u32_injective(a[0], b[0]);
            lemma_char_u32_injective(b[0], c[0]);
            lemma_char_u32_injective(a[0], c[0]);
        }
    }
}

proof fn lemma_char_u32_injective(x: char, y: char)
    ensures
        (x as u32) == (y as u32) ==> x == y,
{
}

pub proof fn lemma_key_lt_total(a: Seq<char>, b: Seq<char>)
    requires
        a != b,
    ensures
        key_lt(a, b) || key_lt(b, a),
    decreases a.len(),
{
    if a.len() > 0 && b.len() > 0 {
        if a[0] == b[0] {
            if a.skip(1) == b.skip(1) {
                assert(a =~= seq![a[0]] + a.skip(1));
                assert(b =~= seq![b[0]] + b.skip(1));
            }
            lemma_key_lt_total(a.skip(1), b.skip(1));
        } else {
            lemma_char_u32_injective(a[0], b[0]);
        }
    } else if a.len() == 0 && b.len() == 0 {
        assert(a =~= b);
    }
}

/// Whether `a` comes before `b` in the order of `String`.
pub fn key_less(a: &str, b: &str) -> (r: bool)
    ensures
        r == key_lt(a@, b@),
{
    let x = chars_of(a);
    let y = chars_of(b);
    let mut i: usize = 0;
    proof {
        assert(x@.skip(0) == x@);
        assert(y@.skip(0) == y@);
    }
    while i < x.len() && i < y.len() && x[i] == y[i]
        invariant
            i <= x@.len(),
            i <= y@.len(),
            key_lt(x@, y@) == key_lt(x@.skip(i as int), y@.skip(i as int)),
        decreases x@.len() - i,
    {
        proof {
            assert(x@.skip(i as int).skip(1) == x@.skip(i + 1));
            assert(y@.skip(i as int).skip(1) == y@.skip(i + 1));
        }
        i = i + 1;
    }
    if i == x.len() {
        proof {
            assert(x@.skip(i as int).len() == 0);
        }
        i < y.len()
    } else if i == y.len() {
        proof {
            assert(y@.skip(i as int).len() == 0);
        }
        false
    } else {
        proof {
            assert(x@.skip(i as int)[0] == x@[i as int]);
            assert(y@.skip(i as int)[0] == y@[i as int]);
        }
        (x[i] as u32) < (y[i] as u32)
    }
}

/// The keys strictly increase along the entries.
pub open spec fn keys_sorted<V>(s: Seq<(String, V)>) -> bool {
    forall|i: int, j: int| 0 <= i < j < s.len() ==> key_lt(#[trigger] s[i].0@, #[trigger] s[j].0@)
}

/// Some entry has key `k`.
pub open spec fn has_key<V>(s: Seq<(String, V)>, k: Seq<char>) -> bool {
    exists|i: int| 0 <= i < s.len() && #[trigger] s[i].0@ == k
}

/// An index of an entry with key `k` (meaningful when there is one).
pub open spec fn key_index<V>(s: Seq<(String, V)>, k: Seq<char>) -> int {
    choose|i: int| 0 <= i < s.len() && #[trigger] s[i].0@ == k
}

/// The entries as a map from key to value.
pub open spec fn as_map<V>(s: Seq<(String, V)>) -> Map<Seq<char>, V> {
    Map::new(|k: Seq<char>| has_key(s, k), |k: Seq<char>| s[key_index(s, k)].1)
}

pub proof fn lemma_sorted_distinct<V>(s: Seq<(String, V)>, i: int, j: int)
    requires
        keys_sorted(s),
        0 <= i < s.len(),
        0 <= j < s.len(),
        s[i].0@ == s[j].0@,
    ensures
        i == j,
{
    if i < j {
        lemma_key_lt_irreflexive(s[i].0@);
        assert(key_lt(s[i].0@, s[j].0@));
    } else if j < i {
        lemma_key_lt_irreflexive(s[i].0@);
        assert(key_lt(s[j].0@, s[i].0@));
    }
}

/// In sorted entries, the map gives each entry's value for its key.
pub proof fn lemma_as_map_at<V>(s: Seq<(String, V)>, i: int)
    requires
        keys_sorted(s),
        0 <= i < s.len(),
    ensures
        as_map(s).dom().contains(s[i].0@),
        as_map(s)[s[i].0@] == s[i].1,
{
    let k = s[i].0@;
    assert(has_key(s, k));
    let j = key_index(s, k);
    lemma_sorted_distinct(s, i, j);
    assert(as_map(s)[k] == s[j].1);
}

/// A map from text keys, kept in key order.
pub struct SortedMap<V> {
    entries: Vec<(String, V)>,
}

impl<V> SortedMap<V> {
    pub closed spec fn entries_view(&self) -> Seq<(String, V)> {
        self.entries@
    }

    /// The keys are in order and distinct.
    pub open spec fn wf(&self) -> bool {
        keys_sorted(self.entries_view())
    }

    pub open spec fn map_view(&self) -> Map<Seq<char>, V> {
        as_map(self.entries_view())
    }

    /// The map holding entries that are already in key order.
    pub fn from_sorted(entries: Vec<(String, V)>) -> (m: SortedMap<V>)
        requires
            keys_sorted(entries@),
        ensures
            m.wf(),
            m.entries_view() == entries@,
    {
        SortedMap { entries }
    }

    /// An empty map.
    pub fn new() -> (m: SortedMap<V>)
        ensures
            m.wf(),
            m.entries_view().len() == 0,
            m.map_view() == Map::<Seq<char>, V>::empty(),
    {
        let m = SortedMap { entries: Vec::new() };
        proof {
            assert(m.map_view() =~= Map::<Seq<char>, V>::empty());
        }
        m
    }

    /// Sets the value of `key`, replacing any value it had.
    pub fn insert(&mut self, key: String, value: V)
        requires
            old(self).wf(),
        ensures
            final(self).wf(),
            final(self).map_view() == old(self).map_view().insert(key@, value),
    {
        let ghost old_s = self.entries@;
        let ghost k = key@;
        let mut p: usize = 0;
        while p < self.entries.len() && key_less(self.entries[p].0.as_str(), key.as_str())
            invariant
                self.entries@ == old_s,
                old(self).entries@ == old_s,
                keys_sorted(old_s),
                k == key@,
                p <= old_s.len(),
                forall|j: int| 0 <= j < p ==> key_lt(#[trigger] old_s[j].0@, k),
            decreases old_s.len() - p,
        {
            p = p + 1;
        }
        // Every entry from `p` on has a key at least `key`.
        proof {
            assert forall|j: int| p <= j < old_s.len() implies old_s[j].0@ == k || key_lt(
                k,
                #[trigger] old_s[j].0@,
            ) by {
                if old_s[j].0@ != k {
                    lemma_key_lt_total(old_s[j].0@, k);
                    if key_lt(old_s[j].0@, k) {
                        // p < old_s.len() here, and old_s[p] is not before `key`
                        assert(p < old_s.len());
                        if j > p {
                            assert(key_lt(old_s[p as int].0@, old_s[j].0@));
                            if key_lt(old_s[p as int].0@, k) {
                            } else if old_s[p as int].0@ == k {
                                lemma_key_lt_irreflexive(k);
                                lemma_key_lt_transitive(k, old_s[j].0@, k);
                            } else {
                                lemma_key_lt_total(old_s[p as int].0@, k);
                                lemma_key_lt_transitive(k, old_s[p as int].0@, old_s[j].0@);
                                lemma_key_lt_transitive(k, old_s[j].0@, k);
                                lemma_key_lt_irreflexive(k);
                            }
                        }
                    }
                }
            }
        }
        let same = p < self.entries.len() && crate::text::chars_eq(
            chars_of(self.entries[p].0.as_str()).as_slice(),
            chars_of(key.as_str()).as_slice(),
        );
        if same {
            self.entries.set(p, (key, value));
            proof {
                let s = self.entries@;
                assert(s == old_s.update(p as int, (s[p as int].0, value)));
                assert(keys_sorted(s)) by {
                    assert forall|i: int, j: int| 0 <= i < j < s.len() implies key_lt(
                        #[trigger] s[i].0@,
                        #[trigger] s[j].0@,
                    ) by {
                        assert(key_lt(old_s[i].0@, old_s[j].0@));
                    }
                }
                assert forall|kk: Seq<char>| #![auto] as_map(s).dom().contains(kk) <==> as_map(
                    old_s,
                ).insert(k, value).dom().contains(kk) by {
                    if has_key(old_s, kk) {
                        let i = choose|i: int| 0 <= i < old_s.len() && #[trigger] old_s[i].0@ == kk;
                        assert(s[i].0@ == kk);
                    }
                    if has_key(s, kk) {
                        let i = choose|i: int| 0 <= i < s.len() && #[trigger] s[i].0@ == kk;
                        assert(old_s[i].0@ == kk);
                    }
                }
                assert(as_map(s).dom() =~= as_map(old_s).insert(k, value).dom());
                assert forall|kk: Seq<char>| #[trigger] as_map(s).dom().contains(kk) implies as_map(
                    s,
                )[kk] == as_map(old_s).insert(k, value)[kk] by {
                    let i = choose|i: int| 0 <= i < s.len() && #[trigger] s[i].0@ == kk;
                    lemma_as_map_at(s, i);
                    if i != p {
                        lemma_as_map_at(old_s, i);
                        if kk == k {
                            lemma_sorted_distinct(old_s, i, p as int);
                        }
                    }
                }
                assert(as_map(s) =~= as_map(old_s).insert(k, value));
            }
        } else {
            self.entries.insert(p, (key, value));
            proof {
                let s = self.entries@;
                assert(s == old_s.insert(p as int, (s[p as int].0, value)));
                assert(s[p as int].0@ == k);
                assert(forall|j: int| p <= j < old_s.len() ==> key_lt(k, #[trigger] old_s[j].0@));
                assert(keys_sorted(s)) by {
                    assert forall|i: int, j: int| 0 <= i < j < s.len() implies key_lt(
                        #[trigger] s[i].0@,
                        #[trigger] s[j].0@,
                    ) by {
                        if j < p {
                            assert(key_lt(old_s[i].0@, old_s[j].0@));
                        } else if j == p {
                            assert(key_lt(old_s[i].0@, k));
                        } else if i < p {
                            assert(key_lt(old_s[i].0@, k));
                            assert(key_lt(k, old_s[j - 1].0@));
                            lemma_key_lt_transitive(old_s[i].0@, k, old_s[j - 1].0@);
                        } else if i == p {
                            assert(key_lt(k, old_s[j - 1].0@));
                        } else {
                            assert(key_lt(old_s[i - 1].0@, old_s[j - 1].0@));
                        }
                    }
                }
                assert forall|kk: Seq<char>| #![auto] as_map(s).dom().contains(kk) <==> as_map(
                    old_s,
                ).insert(k, value).dom().contains(kk) by {
                    if has_key(old_s, kk) {
                        let i = choose|i: int| 0 <= i < old_s.len() && #[trigger] old_s[i].0@ == kk;
                        if i < p {
                            assert(s[i].0@ == kk);
                        } else {
                            assert(s[i + 1].0@ == kk);
                        }
                    }
                    if kk == k {
                        assert(s[p as int].0@ == kk);
                    }
                    if has_key(s, kk) {
                        let i = choose|i: int| 0 <= i < s.len() && #[trigger] s[i].0@ == kk;
                        if i < p {
                            assert(old_s[i].0@ == kk);
                        } else if i > p {
                            assert(old_s[i - 1].0@ == kk);
                        }
                    }
                }
                assert(as_map(s).dom() =~= as_map(old_s).insert(k, value).dom());
                assert forall|kk: Seq<char>| #[trigger] as_map(s).dom().contains(kk) implies as_map(
                    s,
                )[kk] == as_map(old_s).insert(k, value)[kk] by {
                    let i = choose|i: int| 0 <= i < s.len() && #[trigger] s[i].0@ == kk;
                    lemma_as_map_at(s, i);
                    if i < p {
                        lemma_as_map_at(old_s, i);
                        lemma_key_lt_irreflexive(k);
                    } else if i > p {
                        lemma_as_map_at(old_s, i - 1);
                        lemma_key_lt_irreflexive(k);
                    }
                }
                assert(as_map(s) =~= as_map(old_s).insert(k, value));
            }
        }
    }

    /// The value of `key`, if it has one.
    pub fn get(&self, key: &str) -> (r: Option<&V>)
        requires
            self.wf(),
        ensures
            match r {
                Some(v) => self.map_view().dom().contains(key@) && self.map_view()[key@] == *v,
                None => !self.map_view().dom().contains(key@),
            },
    {
        let kc = chars_of(key);
        let mut i: usize = 0;
        while i < self.entries.len()
            invariant
                i <= self.entries@.len(),
                kc@ == key@,
                keys_sorted(self.entries@),
                forall|j: int| 0 <= j < i ==> #[trigger] self.entries@[j].0@ != key@,
            decreases self.entries@.len() - i,
        {
            if crate::text::chars_eq(chars_of(self.entries[i].0.as_str()).as_slice(), kc.as_slice()) {
                proof {
                    lemma_as_map_at(self.entries@, i as int);
                }
                return Some(&self.entries[i].1);
            }
            i = i + 1;
        }
        None
    }

    /// Removes `key` and its value, if it has one.
    pub fn remove(&mut self, key: &str)
        requires
            old(self).wf(),
        ensures
            final(self).wf(),
            final(self).map_view() == old(self).map_view().remove(key@),
    {
        let kc = chars_of(key);
        let ghost old_s = self.entries@;
        let mut i: usize = 0;
        while i < self.entries.len()
            invariant
                i <= self.entries@.len(),
                kc@ == key@,
                self.entries@ == old_s,
                old(self).entries@ == old_s,
                keys_sorted(old_s),
                forall|j: int| 0 <= j < i ==> #[trigger] self.entries@[j].0@ != key@,
            decreases self.entries@.len() - i,
        {
            if crate::text::chars_eq(chars_of(self.entries[i].0.as_str()).as_slice(), kc.as_slice()) {
                self.entries.remove(i);
                proof {
                    let s = self.entries@;
                    let k = key@;
                    assert(s == old_s.remove(i as int));
                    assert(keys_sorted(s)) by {
                        assert forall|a: int, b: int| 0 <= a < b < s.len() implies key_lt(
                            #[trigger] s[a].0@,
                            #[trigger] s[b].0@,
                        ) by {
                            let a2 = if a < i { a } else { a + 1 };
                            let b2 = if b < i { b } else { b + 1 };
                            assert(s[a] == old_s[a2]);
                            assert(s[b] == old_s[b2]);
                        }
                    }
                    assert forall|kk: Seq<char>| #![auto] as_map(s).dom().contains(kk) <==> as_map(
                        old_s,
                    ).remove(k).dom().contains(kk) by {
                        if has_key(old_s, kk) && kk != k {
                            let j = choose|j: int| 0 <= j < old_s.len() && #[trigger] old_s[j].0@ == kk;
                            if j < i {
                                assert(s[j].0@ == kk);
                            } else {
                                assert(j != i);
                                assert(s[j - 1].0@ == kk);
                            }
                        }
                        if has_key(s, kk) {
                            let j = choose|j: int| 0 <= j < s.len() && #[trigger] s[j].0@ == kk;
                            let j2 = if j < i { j } else { j + 1 };
                            assert(old_s[j2].0@ == kk);
                            if kk == k {
                                lemma_sorted_distinct(old_s, j2, i as int);
                            }
                        }
                    }
                    assert(as_map(s).dom() =~= as_map(old_s).remove(k).dom());
                    assert forall|kk: Seq<char>| #[trigger] as_map(s).dom().contains(kk) implies as_map(
                        s,
                    )[kk] == as_map(old_s).remove(k)[kk] by {
                        let j = choose|j: int| 0 <= j < s.len() && #[trigger] s[j].0@ == kk;
                        lemma_as_map_at(s, j);
                        let j2 = if j < i { j } else { j + 1 };
                        assert(s[j] == old_s[j2]);
                        lemma_as_map_at(old_s, j2);
                    }
                    assert(as_map(s) =~= as_map(old_s).remove(k));
                }
                return;
            }
            i = i + 1;
        }
        proof {
            assert(!as_map(old_s).dom().contains(key@));
            assert(as_map(old_s).remove(key@) =~= as_map(old_s));
        }
    }

    /// Removes every key.
    pub fn clear(&mut self)
        ensures
            final(self).wf(),
            final(self).map_view() == Map::<Seq<char>, V>::empty(),
    {
        self.entries = Vec::new();
        proof {
            assert(self.map_view() =~= Map::<Seq<char>, V>::empty());
        }
    }

    /// The number of keys.
    pub fn len(&self) -> (n: usize)
        ensures
            n == self.entries_view().len(),
    {
        self.entries.len()
    }

    /// The entries in key order.
    pub fn into_entries(self) -> (v: Vec<(String, V)>)
        ensures
            v@ == self.entries_view(),
    {
        self.entries
    }

    /// The entries in key order.
    pub fn entries(&self) -> (v: &Vec<(String, V)>)
        ensures
            v@ == self.entries_view(),
    {
        &self.entries
    }
}

} // verus!
