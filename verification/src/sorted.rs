//! Ordered maps kept as strictly sorted vectors of entries: the model of the
//! `BTreeMap`s and `BTreeSet`s that the graphs and histograms are built on.
use vstd::prelude::*;

use crate::text::{
    compare_text, lemma_text_lt_irreflexive, lemma_text_lt_total, lemma_text_lt_transitive, text_lt,
    KeyCmp,
};

verus! {

/// Values that can be copied with their view kept.
pub trait Duplicate: View + Sized {
    fn duplicate(&self) -> (r: Self)
        ensures
            r@ == self@,
    ;
}

impl Duplicate for u128 {
    fn duplicate(&self) -> (r: u128) {
        *self
    }
}

impl Duplicate for usize {
    fn duplicate(&self) -> (r: usize) {
        *self
    }
}

impl Duplicate for () {
    fn duplicate(&self) -> (r: ()) {
        ()
    }
}

impl Duplicate for String {
    fn duplicate(&self) -> (r: String) {
        self.clone()
    }
}

/// Keys with a strict total order on their views, and an executable
/// comparison that follows it.
pub trait KeyOrder: Duplicate {
    spec fn key_lt(a: Self::V, b: Self::V) -> bool;

    proof fn lemma_key_lt_irreflexive(a: Self::V)
        ensures
            !Self::key_lt(a, a),
    ;

    proof fn lemma_key_lt_transitive(a: Self::V, b: Self::V, c: Self::V)
        requires
            Self::key_lt(a, b),
            Self::key_lt(b, c),
        ensures
            Self::key_lt(a, c),
    ;

    proof fn lemma_key_lt_total(a: Self::V, b: Self::V)
        ensures
            a == b || Self::key_lt(a, b) || Self::key_lt(b, a),
    ;

    fn compare_key(&self, other: &Self) -> (r: KeyCmp)
        ensures
            (r is Less) == Self::key_lt(self@, other@),
            (r is Equal) == (self@ == other@),
            (r is Greater) == Self::key_lt(other@, self@),
    ;
}

impl KeyOrder for u128 {
    open spec fn key_lt(a: u128, b: u128) -> bool {
        a < b
    }

    proof fn lemma_key_lt_irreflexive(a: u128) {
    }

    proof fn lemma_key_lt_transitive(a: u128, b: u128, c: u128) {
    }

    proof fn lemma_key_lt_total(a: u128, b: u128) {
    }

    fn compare_key(&self, other: &u128) -> (r: KeyCmp) {
        if *self < *other {
            KeyCmp::Less
        } else if *self == *other {
            KeyCmp::Equal
        } else {
            KeyCmp::Greater
        }
    }
}

impl KeyOrder for String {
    open spec fn key_lt(a: Seq<char>, b: Seq<char>) -> bool {
        text_lt(a, b)
    }

    proof fn lemma_key_lt_irreflexive(a: Seq<char>) {
        lemma_text_lt_irreflexive(a);
    }

    proof fn lemma_key_lt_transitive(a: Seq<char>, b: Seq<char>, c: Seq<char>) {
        lemma_text_lt_transitive(a, b, c);
    }

    proof fn lemma_key_lt_total(a: Seq<char>, b: Seq<char>) {
        lemma_text_lt_total(a, b);
    }

    fn compare_key(&self, other: &String) -> (r: KeyCmp) {
        compare_text(self.as_str(), other.as_str())
    }
}

/// The keys of a sequence of entries.
pub open spec fn keys_of<K, V>(s: Seq<(K, V)>) -> Seq<K> {
    s.map_values(|e: (K, V)| e.0)
}

/// Every key is below every later one.
pub open spec fn strictly_sorted<K: KeyOrder, V>(s: Seq<(K::V, V)>) -> bool {
    forall|i: int, j: int| 0 <= i < j < s.len() ==> K::key_lt(#[trigger] s[i].0, #[trigger] s[j].0)
}

/// No key occurs twice.
pub open spec fn unique_keys<K, V>(s: Seq<(K, V)>) -> bool {
    forall|i: int, j: int| 0 <= i < s.len() && 0 <= j < s.len() && i != j ==> #[trigger] s[i].0 != #[trigger] s[j].0
}

/// The map that a sequence of entries stands for; a later entry of a key wins.
pub open spec fn map_of<K, V>(s: Seq<(K, V)>) -> Map<K, V>
    decreases s.len(),
{
    if s.len() == 0 {
        Map::empty()
    } else {
        map_of(s.drop_last()).insert(s.last().0, s.last().1)
    }
}

pub proof fn lemma_sorted_unique<K: KeyOrder, V>(s: Seq<(K::V, V)>)
    requires
        strictly_sorted::<K, V>(s),
    ensures
        unique_keys(s),
{
    assert forall|i: int, j: int| 0 <= i < s.len() && 0 <= j < s.len() && i != j implies #[trigger] s[i].0 != #[trigger] s[j].0 by {
        K::lemma_key_lt_irreflexive(s[i].0);
        if i < j {
            assert(K::key_lt(s[i].0, s[j].0));
        } else {
            assert(K::key_lt(s[j].0, s[i].0));
        }
    }
}

pub proof fn lemma_map_of_dom<K, V>(s: Seq<(K, V)>, k: K)
    ensures
        map_of(s).contains_key(k) <==> exists|i: int| 0 <= i < s.len() && #[trigger] s[i].0 == k,
    decreases s.len(),
{
    if s.len() > 0 {
        lemma_map_of_dom(s.drop_last(), k);
        if map_of(s.drop_last()).contains_key(k) {
            let i = choose|i: int| 0 <= i < s.drop_last().len() && #[trigger] s.drop_last()[i].0 == k;
            assert(s[i].0 == k);
        }
        if exists|i: int| 0 <= i < s.len() && #[trigger] s[i].0 == k {
            let i = choose|i: int| 0 <= i < s.len() && #[trigger] s[i].0 == k;
            if i < s.len() - 1 {
                assert(s.drop_last()[i].0 == k);
            }
        }
    }
}

pub proof fn lemma_map_of_index<K, V>(s: Seq<(K, V)>, i: int)
    requires
        unique_keys(s),
        0 <= i < s.len(),
    ensures
        map_of(s).contains_key(s[i].0),
        map_of(s)[s[i].0] == s[i].1,
    decreases s.len(),
{
    if i < s.len() - 1 {
        let t = s.drop_last();
        assert(unique_keys(t)) by {
            assert forall|a: int, b: int| 0 <= a < t.len() && 0 <= b < t.len() && a != b implies #[trigger] t[a].0 != #[trigger] t[b].0 by {
                assert(s[a].0 != s[b].0);
            }
        }
        lemma_map_of_index(t, i);
        assert(t[i] == s[i]);
        assert(s.last().0 != s[i].0);
    }
}

/// The map of a sequence with unique keys is read entry by entry.
pub proof fn lemma_map_of_lookup<K, V>(s: Seq<(K, V)>, k: K)
    requires
        unique_keys(s),
    ensures
        map_of(s).contains_key(k) ==> exists|i: int| 0 <= i < s.len() && #[trigger] s[i].0 == k && map_of(s)[k] == s[i].1,
        !map_of(s).contains_key(k) ==> forall|i: int| 0 <= i < s.len() ==> #[trigger] s[i].0 != k,
{
    lemma_map_of_dom(s, k);
    if map_of(s).contains_key(k) {
        let i = choose|i: int| 0 <= i < s.len() && #[trigger] s[i].0 == k;
        lemma_map_of_index(s, i);
    }
}

/// Inserting an entry for a new key at any position adds it to the map.
pub proof fn lemma_map_of_insert<K, V>(s: Seq<(K, V)>, i: int, k: K, v: V)
    requires
        unique_keys(s),
        0 <= i <= s.len(),
        forall|j: int| 0 <= j < s.len() ==> #[trigger] s[j].0 != k,
    ensures
        unique_keys(s.insert(i, (k, v))),
        map_of(s.insert(i, (k, v))) == map_of(s).insert(k, v),
{
    let t = s.insert(i, (k, v));
    assert forall|a: int, b: int| 0 <= a < t.len() && 0 <= b < t.len() && a != b implies #[trigger] t[a].0 != #[trigger] t[b].0 by {
        if a != i && b != i {
            let a2 = if a < i { a } else { a - 1 };
            let b2 = if b < i { b } else { b - 1 };
            assert(t[a] == s[a2]);
            assert(t[b] == s[b2]);
        } else if a == i {
            let b2 = if b < i { b } else { b - 1 };
            assert(t[b] == s[b2]);
        } else {
            let a2 = if a < i { a } else { a - 1 };
            assert(t[a] == s[a2]);
        }
    }
    assert forall|x: K| #[trigger] map_of(t).contains_key(x) == map_of(s).insert(k, v).contains_key(x) && (map_of(t).contains_key(x) ==> map_of(t)[x] == map_of(s).insert(k, v)[x]) by {
        lemma_map_of_lookup(t, x);
        lemma_map_of_lookup(s, x);
        if x == k {
            lemma_map_of_index(t, i);
        } else {
            if map_of(s).contains_key(x) {
                let j = choose|j: int| 0 <= j < s.len() && #[trigger] s[j].0 == x && map_of(s)[x] == s[j].1;
                let j2 = if j < i { j } else { j + 1 };
                assert(t[j2] == s[j]);
                lemma_map_of_index(t, j2);
            }
            if map_of(t).contains_key(x) {
                let j = choose|j: int| 0 <= j < t.len() && #[trigger] t[j].0 == x && map_of(t)[x] == t[j].1;
                let j2 = if j < i { j } else { j - 1 };
                assert(t[j] == s[j2]);
            }
        }
    }
    assert(map_of(t) =~= map_of(s).insert(k, v));
}

/// Replacing the value of an entry replaces it in the map.
pub proof fn lemma_map_of_update<K, V>(s: Seq<(K, V)>, i: int, v: V)
    requires
        unique_keys(s),
        0 <= i < s.len(),
    ensures
        unique_keys(s.update(i, (s[i].0, v))),
        map_of(s.update(i, (s[i].0, v))) == map_of(s).insert(s[i].0, v),
{
    let k = s[i].0;
    let r = s.remove(i);
    assert forall|a: int, b: int| 0 <= a < r.len() && 0 <= b < r.len() && a != b implies #[trigger] r[a].0 != #[trigger] r[b].0 by {
        let a2 = if a < i { a } else { a + 1 };
        let b2 = if b < i { b } else { b + 1 };
        assert(r[a] == s[a2]);
        assert(r[b] == s[b2]);
    }
    assert forall|j: int| 0 <= j < r.len() implies #[trigger] r[j].0 != k by {
        let j2 = if j < i { j } else { j + 1 };
        assert(r[j] == s[j2]);
    }
    assert(r.insert(i, (k, v)) =~= s.update(i, (k, v)));
    assert(r.insert(i, (k, s[i].1)) =~= s);
    lemma_map_of_insert(r, i, k, v);
    lemma_map_of_insert(r, i, k, s[i].1);
    assert(map_of(s).insert(k, v) =~= map_of(r).insert(k, s[i].1).insert(k, v));
    assert(map_of(r).insert(k, v) =~= map_of(r).insert(k, s[i].1).insert(k, v));
}

/// A map whose entries are kept in strictly increasing key order.
#[derive(Clone, Debug)]
pub struct SortedMap<K, V> {
    entries: Vec<(K, V)>,
}

/// Where a key stands in a sorted sequence of entries: found at an index,
/// or missing with the index at which it would be inserted.
pub open spec fn search_result<K: KeyOrder, V>(s: Seq<(K::V, V)>, k: K::V, r: Result<usize, usize>) -> bool {
    match r {
        Ok(i) => i < s.len() && s[i as int].0 == k,
        Err(i) => {
            &&& i <= s.len()
            &&& forall|j: int| 0 <= j < i ==> K::key_lt(#[trigger] s[j].0, k)
            &&& forall|j: int| i <= j < s.len() ==> K::key_lt(k, #[trigger] s[j].0)
        },
    }
}

impl<K: KeyOrder, V: View> SortedMap<K, V> {
    /// The entries, in key order, by their views.
    pub closed spec fn pairs(&self) -> Seq<(K::V, V::V)> {
        self.entries@.map_values(|e: (K, V)| (e.0@, e.1@))
    }

    /// The values, in key order.
    pub closed spec fn values(&self) -> Seq<V> {
        self.entries@.map_values(|e: (K, V)| e.1)
    }

    pub open spec fn wf(&self) -> bool {
        strictly_sorted::<K, V::V>(self.pairs())
    }

    /// The values and the entries' views line up.
    pub proof fn lemma_values_view(&self)
        ensures
            self.values().len() == self.pairs().len(),
            forall|i: int| 0 <= i < self.values().len() ==> (#[trigger] self.values()[i])@ == self.pairs()[i].1,
    {
    }

    pub fn new() -> (r: Self)
        ensures
            r.pairs() == Seq::<(K::V, V::V)>::empty(),
            r.values() == Seq::<V>::empty(),
            r.wf(),
            r@ == Map::<K::V, V::V>::empty(),
    {
        let r = SortedMap { entries: Vec::new() };
        assert(r.pairs() =~= Seq::<(K::V, V::V)>::empty());
        assert(r.values() =~= Seq::<V>::empty());
        r
    }

    pub fn len(&self) -> (n: usize)
        ensures
            n == self.pairs().len(),
            n == self.values().len(),
    {
        self.entries.len()
    }

    pub fn key_at(&self, i: usize) -> (k: &K)
        requires
            i < self.pairs().len(),
        ensures
            k@ == self.pairs()[i as int].0,
    {
        &self.entries[i].0
    }

    pub fn value_at(&self, i: usize) -> (v: &V)
        requires
            i < self.pairs().len(),
        ensures
            v@ == self.pairs()[i as int].1,
            *v == self.values()[i as int],
    {
        &self.entries[i].1
    }

    /// Finds a key, or the place where it belongs.
    pub fn search(&self, k: &K) -> (r: Result<usize, usize>)
        requires
            self.wf(),
        ensures
            search_result::<K, V::V>(self.pairs(), k@, r),
    {
        let n = self.entries.len();
        let mut i: usize = 0;
        while i < n
            invariant
                n == self.pairs().len(),
                i <= n,
                self.wf(),
                forall|j: int| 0 <= j < i ==> K::key_lt(#[trigger] self.pairs()[j].0, k@),
            decreases n - i,
        {
            let c = self.entries[i].0.compare_key(k);
            assert(self.entries[i as int].0@ == self.pairs()[i as int].0);
            match c {
                KeyCmp::Less => {},
                KeyCmp::Equal => {
                    return Ok(i);
                },
                KeyCmp::Greater => {
                    proof {
                        let s = self.pairs();
                        assert forall|j: int| i <= j < s.len() implies K::key_lt(k@, #[trigger] s[j].0) by {
                            if j > i {
                                assert(K::key_lt(s[i as int].0, s[j].0));
                                K::lemma_key_lt_transitive(k@, s[i as int].0, s[j].0);
                            }
                        }
                    }
                    return Err(i);
                },
            }
            i = i + 1;
        }
        Err(i)
    }

    /// Looks a key up.
    pub fn get(&self, k: &K) -> (r: Option<&V>)
        requires
            self.wf(),
        ensures
            match r {
                Some(v) => self@.contains_key(k@) && self@[k@] == v@,
                None => !self@.contains_key(k@),
            },
    {
        proof {
            lemma_sorted_unique::<K, V::V>(self.pairs());
        }
        match self.search(k) {
            Ok(i) => {
                proof {
                    lemma_map_of_index(self.pairs(), i as int);
                }
                Some(&self.entries[i].1)
            },
            Err(i) => {
                proof {
                    lemma_map_of_dom(self.pairs(), k@);
                    if self@.contains_key(k@) {
                        let j = choose|j: int| 0 <= j < self.pairs().len() && #[trigger] self.pairs()[j].0 == k@;
                        K::lemma_key_lt_irreflexive(k@);
                    }
                }
                None
            },
        }
    }

    /// Inserts an entry for a missing key at the place that `search` gave.
    pub fn insert_at(&mut self, i: usize, k: K, v: V)
        requires
            old(self).wf(),
            search_result::<K, V::V>(old(self).pairs(), k@, Err(i)),
        ensures
            final(self).wf(),
            final(self).pairs() == old(self).pairs().insert(i as int, (k@, v@)),
            final(self).values() == old(self).values().insert(i as int, v),
            final(self)@ == old(self)@.insert(k@, v@),
    {
        let ghost kv = k@;
        let ghost vv = v@;
        let ghost s = old(self).pairs();
        let ghost vals = old(self).values();
        let ghost vx = v;
        self.entries.insert(i, (k, v));
        let ghost t = self.pairs();
        assert(self.values() =~= vals.insert(i as int, vx));
        assert(t =~= s.insert(i as int, (kv, vv)));
        assert forall|a: int, b: int| 0 <= a < b < t.len() implies K::key_lt(#[trigger] t[a].0, #[trigger] t[b].0) by {
            if b < i {
                assert(t[a] == s[a] && t[b] == s[b]);
            } else if a > i {
                assert(t[a] == s[a - 1] && t[b] == s[b - 1]);
            } else if a == i {
                assert(t[b] == s[b - 1]);
            } else if b == i {
                assert(t[a] == s[a]);
            } else {
                assert(t[a] == s[a] && t[b] == s[b - 1]);
                K::lemma_key_lt_transitive(s[a].0, kv, s[b - 1].0);
            }
        }
        proof {
            lemma_sorted_unique::<K, V::V>(s);
            assert forall|j: int| 0 <= j < s.len() implies #[trigger] s[j].0 != kv by {
                K::lemma_key_lt_irreflexive(kv);
            }
            lemma_map_of_insert(s, i as int, kv, vv);
        }
    }

    /// Replaces the value of the entry at an index, handing back the old one.
    pub fn replace_at(&mut self, i: usize, v: V) -> (old_v: V)
        requires
            old(self).wf(),
            i < old(self).pairs().len(),
        ensures
            final(self).wf(),
            old_v@ == old(self).pairs()[i as int].1,
            old_v == old(self).values()[i as int],
            final(self).values() == old(self).values().update(i as int, v),
            final(self).pairs() == old(self).pairs().update(i as int, (old(self).pairs()[i as int].0, v@)),
            final(self)@ == old(self)@.insert(old(self).pairs()[i as int].0, v@),
    {
        let ghost s = old(self).pairs();
        let ghost vv = v@;
        let ghost vals = old(self).values();
        let ghost vx = v;
        let (k, old_v) = self.entries.remove(i);
        self.entries.insert(i, (k, v));
        let ghost t = self.pairs();
        assert(self.values() =~= vals.update(i as int, vx));
        assert(t =~= s.update(i as int, (s[i as int].0, vv)));
        assert forall|a: int, b: int| 0 <= a < b < t.len() implies K::key_lt(#[trigger] t[a].0, #[trigger] t[b].0) by {
            assert(t[a].0 == s[a].0 && t[b].0 == s[b].0);
        }
        proof {
            lemma_sorted_unique::<K, V::V>(s);
            lemma_map_of_update(s, i as int, vv);
        }
        old_v
    }

    /// Inserts or overwrites the entry of a key (`BTreeMap::insert`).
    pub fn insert(&mut self, k: K, v: V)
        requires
            old(self).wf(),
        ensures
            final(self).wf(),
            final(self)@ == old(self)@.insert(k@, v@),
            forall|j: int| 0 <= j < final(self).values().len() ==> #[trigger] final(self).values()[j] == v || old(self).values().contains(final(self).values()[j]),
    {
        let ghost vals = self.values();
        let ghost vx = v;
        match self.search(&k) {
            Ok(i) => {
                let _ = self.replace_at(i, v);
                assert forall|j: int| 0 <= j < self.values().len() implies #[trigger] self.values()[j] == vx || vals.contains(self.values()[j]) by {
                    if j != i {
                        assert(vals[j] == self.values()[j]);
                    }
                }
            },
            Err(i) => {
                self.insert_at(i, k, v);
                assert forall|j: int| 0 <= j < self.values().len() implies #[trigger] self.values()[j] == vx || vals.contains(self.values()[j]) by {
                    if j < i {
                        assert(vals[j] == self.values()[j]);
                    } else if j > i {
                        assert(vals[j - 1] == self.values()[j]);
                    }
                }
            },
        }
    }

    /// Inserts the entry of a key only where the key is missing
    /// (`entry(k).or_insert(v)`).
    pub fn insert_absent(&mut self, k: K, v: V)
        requires
            old(self).wf(),
        ensures
            final(self).wf(),
            final(self)@ == if old(self)@.contains_key(k@) {
                old(self)@
            } else {
                old(self)@.insert(k@, v@)
            },
    {
        proof {
            lemma_sorted_unique::<K, V::V>(self.pairs());
        }
        match self.search(&k) {
            Ok(i) => {
                proof {
                    lemma_map_of_index(self.pairs(), i as int);
                }
            },
            Err(i) => {
                proof {
                    lemma_map_of_dom(self.pairs(), k@);
                    if self@.contains_key(k@) {
                        let j = choose|j: int| 0 <= j < self.pairs().len() && #[trigger] self.pairs()[j].0 == k@;
                        K::lemma_key_lt_irreflexive(k@);
                    }
                }
                self.insert_at(i, k, v);
            },
        }
    }
}

impl<K: KeyOrder, V: Duplicate> SortedMap<K, V> {
    /// A copy with the same entries.
    pub fn duplicate_map(&self) -> (r: Self)
        ensures
            r.pairs() == self.pairs(),
            r@ == self@,
    {
        let mut entries: Vec<(K, V)> = Vec::new();
        let n = self.entries.len();
        let mut i: usize = 0;
        while i < n
            invariant
                n == self.entries@.len(),
                i <= n,
                entries@.len() == i,
                forall|j: int| 0 <= j < i ==> (#[trigger] entries@[j]).0@ == self.entries@[j].0@ && entries@[j].1@ == self.entries@[j].1@,
            decreases n - i,
        {
            let k = self.entries[i].0.duplicate();
            let v = self.entries[i].1.duplicate();
            entries.push((k, v));
            i = i + 1;
        }
        let r = SortedMap { entries };
        assert(r.pairs() =~= self.pairs());
        r
    }
}

impl<K: KeyOrder, V: View> View for SortedMap<K, V> {
    type V = Map<K::V, V::V>;

    open spec fn view(&self) -> Map<K::V, V::V> {
        map_of(self.pairs())
    }
}

impl<K: KeyOrder, V: Duplicate> Duplicate for SortedMap<K, V> {
    fn duplicate(&self) -> (r: Self) {
        self.duplicate_map()
    }
}

} // verus!
