//! Per-edge traffic values: a request count and a latency histogram with
//! cumulative buckets (`le`), aggregated from single observations.
use vstd::prelude::*;

use crate::sorted::{
    lemma_map_of_dom, lemma_map_of_index, lemma_map_of_lookup, lemma_sorted_unique, map_of,
    search_result, Duplicate, KeyOrder, SortedMap,
};
use crate::text::{decimal, write_decimal};

verus! {

/// Nanoseconds in a millisecond.
pub const NANOS_PER_MILLI: u128 = 1_000_000;

/// Number of default histogram buckets.
pub const NUM_DEFAULT_BUCKETS: usize = 16;

/// Whole milliseconds of a duration given in nanoseconds (`Duration::as_millis`).
pub open spec fn millis(duration_ns: u128) -> u128 {
    (duration_ns / NANOS_PER_MILLI) as u128
}

/// The upper bound of the `i`-th default bucket, in nanoseconds:
/// 2, 4, 8, ..., 65536 milliseconds.
pub open spec fn bucket_bound(i: nat) -> nat
    decreases i,
{
    if i == 0 {
        (2 * NANOS_PER_MILLI) as nat
    } else {
        2 * bucket_bound((i - 1) as nat)
    }
}

pub proof fn lemma_bucket_bound_increasing(i: nat, j: nat)
    requires
        i < j,
    ensures
        bucket_bound(i) < bucket_bound(j),
    decreases j,
{
    if i < (j - 1) as nat {
        lemma_bucket_bound_increasing(i, (j - 1) as nat);
    }
    lemma_bucket_bound_positive((j - 1) as nat);
}

pub proof fn lemma_bucket_bound_positive(i: nat)
    ensures
        bucket_bound(i) > 0,
    decreases i,
{
    if i > 0 {
        lemma_bucket_bound_positive((i - 1) as nat);
    }
}

pub proof fn lemma_bucket_bound_small(i: nat)
    requires
        i < NUM_DEFAULT_BUCKETS,
    ensures
        bucket_bound(i) <= 65536 * NANOS_PER_MILLI,
    decreases i,
{
    if i > 0 {
        lemma_bucket_bound_small((i - 1) as nat);
    }
    reveal_with_fuel(bucket_bound, 17);
    assert(bucket_bound(15) == 65536 * NANOS_PER_MILLI);
    if i < 15 {
        lemma_bucket_bound_increasing(i, 15);
    }
}

/// The default bucket bounds.
pub open spec fn default_bounds() -> Seq<u128> {
    Seq::new(NUM_DEFAULT_BUCKETS as nat, |i: int| bucket_bound(i as nat) as u128)
}

/// One observation counted in a bucket: 1 when the duration is below its bound.
pub open spec fn hit(duration_ns: u128, le: u128) -> usize {
    if duration_ns < le {
        1
    } else {
        0
    }
}

/// A latency histogram: per bucket bound (nanoseconds), the number of
/// observations below it, and the sum of the observations in milliseconds.
#[derive(Clone, Debug)]
pub struct NetworkHistogram {
    pub buckets: SortedMap<u128, usize>,
    pub total_ms: u128,
}

pub struct NetworkHistogramView {
    pub buckets: Map<u128, usize>,
    pub total_ms: u128,
}

impl View for NetworkHistogram {
    type V = NetworkHistogramView;

    open spec fn view(&self) -> NetworkHistogramView {
        NetworkHistogramView { buckets: self.buckets@, total_ms: self.total_ms }
    }
}

impl Duplicate for NetworkHistogram {
    fn duplicate(&self) -> (r: NetworkHistogram) {
        NetworkHistogram { buckets: self.buckets.duplicate_map(), total_ms: self.total_ms }
    }
}

/// The histogram of one observation over the default buckets.
pub open spec fn histogram_of(duration_ns: u128) -> NetworkHistogramView {
    NetworkHistogramView {
        buckets: map_of(default_bounds().map_values(|le: u128| (le, hit(duration_ns, le)))),
        total_ms: millis(duration_ns),
    }
}

/// A histogram with one more observation: every bucket above it grows by one.
pub open spec fn histogram_observe(h: NetworkHistogramView, duration_ns: u128) -> NetworkHistogramView {
    NetworkHistogramView {
        buckets: Map::new(
            |le: u128| h.buckets.contains_key(le),
            |le: u128| (h.buckets[le] + hit(duration_ns, le)) as usize,
        ),
        total_ms: (h.total_ms + millis(duration_ns)) as u128,
    }
}

/// The count of a bucket, zero where the bucket is missing.
pub open spec fn bucket_or_zero(m: Map<u128, usize>, le: u128) -> int {
    if m.contains_key(le) {
        m[le] as int
    } else {
        0
    }
}

/// Two histograms added bucket by bucket.
pub open spec fn histogram_merge(a: NetworkHistogramView, b: NetworkHistogramView) -> NetworkHistogramView {
    NetworkHistogramView {
        buckets: Map::new(
            |le: u128| a.buckets.contains_key(le) || b.buckets.contains_key(le),
            |le: u128| (bucket_or_zero(a.buckets, le) + bucket_or_zero(b.buckets, le)) as usize,
        ),
        total_ms: (a.total_ms + b.total_ms) as u128,
    }
}

/// Observing a duration does not overflow any count.
pub open spec fn observe_fits(h: NetworkHistogramView, duration_ns: u128) -> bool {
    &&& forall|le: u128| #[trigger] h.buckets.contains_key(le) && duration_ns < le ==> h.buckets[le] < usize::MAX
    &&& h.total_ms + millis(duration_ns) <= u128::MAX
}

/// Adding two histograms does not overflow any count.
pub open spec fn merge_fits(a: NetworkHistogramView, b: NetworkHistogramView) -> bool {
    &&& forall|le: u128| #[trigger] a.buckets.contains_key(le) && b.buckets.contains_key(le) ==> a.buckets[le] + b.buckets[le] <= usize::MAX
    &&& a.total_ms + b.total_ms <= u128::MAX
}

impl NetworkHistogram {
    pub open spec fn wf(&self) -> bool {
        self.buckets.wf()
    }

    /// An empty histogram (`Default`).
    pub fn new() -> (r: NetworkHistogram)
        ensures
            r.wf(),
            r@.buckets == Map::<u128, usize>::empty(),
            r@.total_ms == 0,
    {
        NetworkHistogram { buckets: SortedMap::new(), total_ms: 0 }
    }

    /// Counts one more observation (`+= NetworkValueBuilder`).
    pub fn observe(&mut self, duration_ns: u128)
        requires
            old(self).wf(),
            observe_fits(old(self)@, duration_ns),
        ensures
            final(self).wf(),
            final(self)@ == histogram_observe(old(self)@, duration_ns),
    {
        let ghost h0 = self@;
        let ghost s0 = self.buckets.pairs();
        proof {
            lemma_sorted_unique::<u128, usize>(s0);
        }
        let n = self.buckets.len();
        let mut i: usize = 0;
        while i < n
            invariant
                n == self.buckets.pairs().len(),
                n == s0.len(),
                i <= n,
                self.wf(),
                self.total_ms == h0.total_ms,
                h0.buckets == map_of(s0),
                observe_fits(h0, duration_ns),
                crate::sorted::unique_keys(s0),
                forall|j: int| 0 <= j < n ==> (#[trigger] self.buckets.pairs()[j]).0 == s0[j].0,
                forall|j: int| 0 <= j < i ==> (#[trigger] self.buckets.pairs()[j]).1 == (s0[j].1 + hit(duration_ns, s0[j].0)) as usize,
                forall|j: int| i <= j < n ==> (#[trigger] self.buckets.pairs()[j]).1 == s0[j].1,
            decreases n - i,
        {
            let le = *self.buckets.key_at(i);
            if duration_ns < le {
                let c = *self.buckets.value_at(i);
                proof {
                    lemma_map_of_index(s0, i as int);
                }
                let _ = self.buckets.replace_at(i, c + 1);
            }
            i = i + 1;
        }
        self.total_ms = self.total_ms + duration_ns / NANOS_PER_MILLI;
        proof {
            let s1 = self.buckets.pairs();
            assert(crate::sorted::unique_keys(s1)) by {
                lemma_sorted_unique::<u128, usize>(s1);
            }
            let target = histogram_observe(h0, duration_ns);
            assert forall|le: u128| #[trigger] map_of(s1).contains_key(le) == target.buckets.contains_key(le) && (map_of(s1).contains_key(le) ==> map_of(s1)[le] == target.buckets[le]) by {
                lemma_map_of_lookup(s1, le);
                lemma_map_of_lookup(s0, le);
                if map_of(s1).contains_key(le) {
                    let j = choose|j: int| 0 <= j < s1.len() && #[trigger] s1[j].0 == le && map_of(s1)[le] == s1[j].1;
                    lemma_map_of_index(s0, j);
                }
                if map_of(s0).contains_key(le) {
                    let j = choose|j: int| 0 <= j < s0.len() && #[trigger] s0[j].0 == le && map_of(s0)[le] == s0[j].1;
                    assert(s1[j].0 == le);
                }
            }
            assert(map_of(s1) =~= target.buckets);
        }
    }

    /// Adds another histogram bucket by bucket (`+=`).
    pub fn merge(&mut self, rhs: &NetworkHistogram)
        requires
            old(self).wf(),
            rhs.wf(),
            merge_fits(old(self)@, rhs@),
        ensures
            final(self).wf(),
            final(self)@ == histogram_merge(old(self)@, rhs@),
    {
        let ghost a = self@;
        let ghost s = rhs.buckets.pairs();
        proof {
            lemma_sorted_unique::<u128, usize>(s);
        }
        let n = rhs.buckets.len();
        let mut i: usize = 0;
        while i < n
            invariant
                n == s.len(),
                s == rhs.buckets.pairs(),
                i <= n,
                self.wf(),
                self.total_ms == a.total_ms,
                crate::sorted::unique_keys(s),
                merge_fits(a, rhs@),
                rhs@.buckets == map_of(s),
                forall|le: u128| #[trigger] self.buckets@.contains_key(le) == (a.buckets.contains_key(le) || map_of(s.take(i as int)).contains_key(le)),
                forall|le: u128| #[trigger] self.buckets@.contains_key(le) ==> self.buckets@[le] == bucket_or_zero(a.buckets, le) + bucket_or_zero(map_of(s.take(i as int)), le),
            decreases n - i,
        {
            let le = *rhs.buckets.key_at(i);
            let c = *rhs.buckets.value_at(i);
            let ghost t0 = s.take(i as int);
            let ghost t1 = s.take(i + 1);
            proof {
                assert(t1 =~= t0.push(s[i as int]));
                assert(t1.drop_last() =~= t0);
                assert(crate::sorted::unique_keys(t0));
                lemma_map_of_lookup(t0, le);
                assert forall|j: int| 0 <= j < t0.len() implies #[trigger] t0[j].0 != le by {
                    assert(s[j].0 != s[i as int].0);
                }
                lemma_map_of_index(s, i as int);
            }
            match self.buckets.search(&le) {
                Ok(j) => {
                    let v = *self.buckets.value_at(j);
                    proof {
                        lemma_sorted_unique::<u128, usize>(self.buckets.pairs());
                        lemma_map_of_index(self.buckets.pairs(), j as int);
                        assert(self.buckets@.contains_key(le));
                        assert(!map_of(t0).contains_key(le));
                        assert(a.buckets.contains_key(le));
                        assert(rhs@.buckets.contains_key(le));
                        assert(v == a.buckets[le]);
                    }
                    let _ = self.buckets.replace_at(j, v + c);
                },
                Err(j) => {
                    proof {
                        lemma_map_of_dom(self.buckets.pairs(), le);
                        if self.buckets@.contains_key(le) {
                            let x = choose|x: int| 0 <= x < self.buckets.pairs().len() && #[trigger] self.buckets.pairs()[x].0 == le;
                        }
                    }
                    self.buckets.insert_at(j, le, c);
                },
            }
            i = i + 1;
        }
        self.total_ms = self.total_ms + rhs.total_ms;
        proof {
            assert(s.take(n as int) =~= s);
            assert(self.buckets@ =~= histogram_merge(a, rhs@).buckets);
        }
    }

    /// The histogram keyed by whole milliseconds rendered in decimal, as
    /// sent out in JSON; of two bounds with the same rendering the larger wins.
    pub fn to_json(&self) -> (r: NetworkHistogramJson)
        requires
            self.wf(),
        ensures
            r.wf(),
            r.buckets@ == map_of(
                self.buckets.pairs().map_values(|e: (u128, usize)| (decimal(millis(e.0) as nat), e.1)),
            ),
            r.total_ms == self.total_ms,
    {
        let ghost s = self.buckets.pairs();
        let ghost t = s.map_values(|e: (u128, usize)| (decimal(millis(e.0) as nat), e.1));
        let mut buckets: SortedMap<String, usize> = SortedMap::new();
        let n = self.buckets.len();
        let mut i: usize = 0;
        while i < n
            invariant
                n == s.len(),
                s == self.buckets.pairs(),
                t == s.map_values(|e: (u128, usize)| (decimal(millis(e.0) as nat), e.1)),
                i <= n,
                buckets.wf(),
                buckets@ == map_of(t.take(i as int)),
            decreases n - i,
        {
            let le = *self.buckets.key_at(i);
            let c = *self.buckets.value_at(i);
            let mut key = String::new();
            write_decimal(&mut key, le / NANOS_PER_MILLI);
            buckets.insert(key, c);
            proof {
                assert(t.take(i + 1).drop_last() =~= t.take(i as int));
                assert(t.take(i + 1).last() == t[i as int]);
            }
            i = i + 1;
        }
        proof {
            assert(t.take(n as int) =~= t);
        }
        NetworkHistogramJson { buckets, total_ms: self.total_ms }
    }

    /// The histogram with bounds in text form, consuming it.
    pub fn into_json(self) -> (r: NetworkHistogramJson)
        requires
            self.wf(),
        ensures
            r.wf(),
            r.buckets@ == map_of(
                self.buckets.pairs().map_values(|e: (u128, usize)| (decimal(millis(e.0) as nat), e.1)),
            ),
            r.total_ms == self.total_ms,
    {
        self.to_json()
    }
}

/// A histogram keyed by millisecond bounds rendered as text.
#[derive(Clone, Debug)]
pub struct NetworkHistogramJson {
    pub buckets: SortedMap<String, usize>,
    pub total_ms: u128,
}

impl NetworkHistogramJson {
    pub open spec fn wf(&self) -> bool {
        self.buckets.wf()
    }
}

/// Aggregated traffic of an edge: how many requests, and their latencies.
#[derive(Clone, Debug)]
pub struct NetworkValue {
    pub count: usize,
    pub duration: NetworkHistogram,
}

pub struct NetworkValueView {
    pub count: usize,
    pub duration: NetworkHistogramView,
}

impl View for NetworkValue {
    type V = NetworkValueView;

    open spec fn view(&self) -> NetworkValueView {
        NetworkValueView { count: self.count, duration: self.duration@ }
    }
}

impl Duplicate for NetworkValue {
    fn duplicate(&self) -> (r: NetworkValue) {
        self.duplicate_value()
    }
}

/// The value of a single observation.
pub open spec fn value_of(duration_ns: u128) -> NetworkValueView {
    NetworkValueView { count: 1, duration: histogram_of(duration_ns) }
}

/// A value with one more observation.
pub open spec fn value_observe(v: NetworkValueView, duration_ns: u128) -> NetworkValueView {
    NetworkValueView {
        count: (v.count + 1) as usize,
        duration: histogram_observe(v.duration, duration_ns),
    }
}

/// Two values added together.
pub open spec fn value_merge(a: NetworkValueView, b: NetworkValueView) -> NetworkValueView {
    NetworkValueView {
        count: (a.count + b.count) as usize,
        duration: histogram_merge(a.duration, b.duration),
    }
}

/// No bucket counts more observations than the value does.
pub open spec fn buckets_within_count(v: NetworkValueView) -> bool {
    forall|le: u128| #[trigger] v.duration.buckets.contains_key(le) ==> v.duration.buckets[le] <= v.count
}

/// Observing one more duration does not overflow.
pub open spec fn value_observe_fits(v: NetworkValueView, duration_ns: u128) -> bool {
    &&& v.count < usize::MAX
    &&& v.duration.total_ms + millis(duration_ns) <= u128::MAX
}

impl NetworkValue {
    pub open spec fn wf(&self) -> bool {
        self.duration.wf()
    }

    /// A copy with the same entries.
    pub fn duplicate_value(&self) -> (r: NetworkValue)
        ensures
            r@ == self@,
            r.count == self.count,
            r.duration.total_ms == self.duration.total_ms,
            r.duration.buckets.pairs() == self.duration.buckets.pairs(),
    {
        NetworkValue {
            count: self.count,
            duration: NetworkHistogram { buckets: self.duration.buckets.duplicate_map(), total_ms: self.duration.total_ms },
        }
    }

    /// Adds another value (`+=`).
    pub fn add_assign(&mut self, rhs: &NetworkValue)
        requires
            old(self).wf(),
            rhs.wf(),
            old(self).count + rhs.count <= usize::MAX,
            merge_fits(old(self)@.duration, rhs@.duration),
        ensures
            final(self).wf(),
            final(self)@ == value_merge(old(self)@, rhs@),
    {
        self.count = self.count + rhs.count;
        self.duration.merge(&rhs.duration);
    }

    /// Counts one more request (`+= NetworkValueBuilder`).
    pub fn add_builder(&mut self, rhs: NetworkValueBuilder)
        requires
            old(self).wf(),
            old(self).count < usize::MAX,
            observe_fits(old(self)@.duration, rhs.duration_ns()),
        ensures
            final(self).wf(),
            final(self)@ == value_observe(old(self)@, rhs.duration_ns()),
            buckets_within_count(old(self)@) ==> buckets_within_count(final(self)@),
    {
        self.count = self.count + 1;
        self.duration.observe(rhs.duration_ns);
    }

    /// The value with histogram bounds rendered as text.
    pub fn to_json(&self) -> (r: NetworkValueJson)
        requires
            self.wf(),
        ensures
            r.wf(),
            r.count == self.count,
            r.duration.total_ms == self.duration.total_ms,
            r.duration.buckets@ == map_of(
                self.duration.buckets.pairs().map_values(|e: (u128, usize)| (decimal(millis(e.0) as nat), e.1)),
            ),
    {
        NetworkValueJson { count: self.count, duration: self.duration.to_json() }
    }

    /// The value with histogram bounds rendered as text, consuming it.
    pub fn into_json(self) -> (r: NetworkValueJson)
        requires
            self.wf(),
        ensures
            r.wf(),
            r.count == self.count,
            r.duration.total_ms == self.duration.total_ms,
            r.duration.buckets@ == map_of(
                self.duration.buckets.pairs().map_values(|e: (u128, usize)| (decimal(millis(e.0) as nat), e.1)),
            ),
    {
        self.to_json()
    }
}

/// A value whose histogram bounds are rendered as text.
#[derive(Clone, Debug)]
pub struct NetworkValueJson {
    pub count: usize,
    pub duration: NetworkHistogramJson,
}

pub struct NetworkValueJsonView {
    pub count: usize,
    pub buckets: Map<Seq<char>, usize>,
    pub total_ms: u128,
}

impl View for NetworkValueJson {
    type V = NetworkValueJsonView;

    open spec fn view(&self) -> NetworkValueJsonView {
        NetworkValueJsonView {
            count: self.count,
            buckets: self.duration.buckets@,
            total_ms: self.duration.total_ms,
        }
    }
}

impl Duplicate for NetworkValueJson {
    fn duplicate(&self) -> (r: NetworkValueJson) {
        NetworkValueJson {
            count: self.count,
            duration: NetworkHistogramJson {
                buckets: self.duration.buckets.duplicate_map(),
                total_ms: self.duration.total_ms,
            },
        }
    }
}

impl NetworkValueJson {
    pub open spec fn wf(&self) -> bool {
        self.duration.wf()
    }
}

/// One observed request latency, in nanoseconds.
#[derive(Copy, Clone, Debug)]
pub struct NetworkValueBuilder {
    duration_ns: u128,
}

impl NetworkValueBuilder {
    pub closed spec fn duration_ns(&self) -> u128 {
        self.duration_ns
    }

    pub fn new(duration_ns: u128) -> (r: NetworkValueBuilder)
        ensures
            r.duration_ns() == duration_ns,
    {
        NetworkValueBuilder { duration_ns }
    }

    /// The value of this single observation over the default buckets.
    pub fn build(self) -> (r: NetworkValue)
        ensures
            r.wf(),
            r@ == value_of(self.duration_ns()),
            buckets_within_count(r@),
            r.duration.buckets.pairs() == default_bounds().map_values(|le: u128| (le, hit(self.duration_ns(), le))),
    {
        let d = self.duration_ns;
        let ghost target = default_bounds().map_values(|le: u128| (le, hit(d, le)));
        let mut buckets: SortedMap<u128, usize> = SortedMap::new();
        let mut le: u128 = 2 * NANOS_PER_MILLI;
        let mut i: usize = 0;
        while i < NUM_DEFAULT_BUCKETS
            invariant
                i <= NUM_DEFAULT_BUCKETS,
                i < NUM_DEFAULT_BUCKETS ==> le == bucket_bound(i as nat),
                buckets.wf(),
                buckets.pairs() == target.take(i as int),
                target == default_bounds().map_values(|le: u128| (le, hit(d, le))),
            decreases NUM_DEFAULT_BUCKETS - i,
        {
            proof {
                lemma_bucket_bound_small(i as nat);
                assert forall|j: int| 0 <= j < i implies u128::key_lt(#[trigger] buckets.pairs()[j].0, le) by {
                    lemma_bucket_bound_increasing(j as nat, i as nat);
                }
            }
            let c: usize = if d < le { 1 } else { 0 };
            let n = buckets.len();
            buckets.insert_at(n, le, c);
            proof {
                assert(buckets.pairs() =~= target.take(i + 1));
                if i + 1 < NUM_DEFAULT_BUCKETS {
                    lemma_bucket_bound_small((i + 1) as nat);
                }
            }
            le = if i + 1 < NUM_DEFAULT_BUCKETS { le * 2 } else { le };
            i = i + 1;
        }
        assert(target.take(NUM_DEFAULT_BUCKETS as int) =~= target);
        let r = NetworkValue {
            count: 1,
            duration: NetworkHistogram { buckets, total_ms: d / NANOS_PER_MILLI },
        };
        proof {
            assert forall|x: u128| #[trigger] r@.duration.buckets.contains_key(x) implies r@.duration.buckets[x] <= 1 by {
                crate::sorted::lemma_map_of_lookup(target, x);
            }
        }
        r
    }
}

} // verus!
