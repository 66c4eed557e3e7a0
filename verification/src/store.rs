//! A bounded store of readings that overwrites its oldest entry when full.

use vstd::prelude::*;
use crate::sums::{lemma_sum_of_concat, sum_of};
use crate::temperature::Temperature;

verus! {

/// A temperature with the time at which it was taken.
#[derive(Clone, Copy, Debug, PartialEq, Eq, Structural)]
pub struct EmbeddedTemperatureReading {
    pub temperature: Temperature,
    pub timestamp: u32,
}

impl EmbeddedTemperatureReading {
    pub fn new(temperature: Temperature, timestamp: u32) -> (r: EmbeddedTemperatureReading)
        ensures
            r.temperature == temperature,
            r.timestamp == timestamp,
    {
        EmbeddedTemperatureReading { temperature, timestamp }
    }
}

/// Aggregates over the readings that a store holds.
#[derive(Clone, Copy, Debug, PartialEq, Eq, Structural)]
pub struct TemperatureStats {
    pub min: Temperature,
    pub max: Temperature,
    pub average: Temperature,
    pub count: usize,
}

/// The last `n` entries of `s`, or all of `s` where it has fewer.
pub open spec fn keep_last<T>(s: Seq<T>, n: nat) -> Seq<T> {
    if s.len() <= n {
        s
    } else {
        s.subrange(s.len() - n, s.len() as int)
    }
}

/// The temperatures of `s`, in thousandths of a degree, in the same order.
pub open spec fn millis_of(s: Seq<EmbeddedTemperatureReading>) -> Seq<int> {
    s.map_values(|r: EmbeddedTemperatureReading| r.temperature.millicelsius as int)
}

/// `m` occurs in `s` and nothing in `s` is below it.
pub open spec fn is_minimum_of(m: int, s: Seq<int>) -> bool {
    &&& exists|i: int| 0 <= i < s.len() && s[i] == m
    &&& forall|i: int| 0 <= i < s.len() ==> m <= s[i]
}

/// `m` occurs in `s` and nothing in `s` is above it.
pub open spec fn is_maximum_of(m: int, s: Seq<int>) -> bool {
    &&& exists|i: int| 0 <= i < s.len() && s[i] == m
    &&& forall|i: int| 0 <= i < s.len() ==> s[i] <= m
}

/// The statistics of a non-empty sequence of readings: the least and the
/// greatest temperature, the mean rounded down to a thousandth of a degree,
/// and the number of readings.
pub open spec fn stats_describe(
    stats: TemperatureStats,
    s: Seq<EmbeddedTemperatureReading>,
) -> bool {
    &&& stats.count == s.len()
    &&& is_minimum_of(stats.min.millicelsius as int, millis_of(s))
    &&& is_maximum_of(stats.max.millicelsius as int, millis_of(s))
    &&& stats.average.millicelsius == sum_of(millis_of(s)) / (s.len() as int)
}

/// What a store of the given capacity holds after each entry of `pushed` was
/// pushed in turn onto a store that held `start`.
pub open spec fn after_pushes<T>(start: Seq<T>, pushed: Seq<T>, capacity: nat) -> Seq<T>
    decreases pushed.len(),
{
    if pushed.len() == 0 {
        start
    } else {
        keep_last(after_pushes(start, pushed.drop_last(), capacity).push(pushed.last()), capacity)
    }
}

/// Pushing onto a store leaves the last `capacity` entries of what it held
/// followed by what was pushed.
pub proof fn lemma_pushes_keep_the_last<T>(start: Seq<T>, pushed: Seq<T>, capacity: nat)
    requires
        start.len() <= capacity,
    ensures
        after_pushes(start, pushed, capacity) == keep_last(start + pushed, capacity),
    decreases pushed.len(),
{
    if pushed.len() == 0 {
        assert(start + pushed =~= start);
    } else {
        let earlier = pushed.drop_last();
        lemma_pushes_keep_the_last(start, earlier, capacity);
        assert((start + earlier).push(pushed.last()) =~= start + pushed);
        assert(keep_last(keep_last(start + earlier, capacity).push(pushed.last()), capacity)
            =~= keep_last(start + pushed, capacity));
    }
}

/// Capacity law: once at least `capacity` readings were pushed onto an empty
/// store, it holds exactly `capacity` readings, and they are the last
/// `capacity` of those pushed, in the order in which they were pushed.
pub proof fn law_store_holds_the_last_pushes<T>(pushed: Seq<T>, capacity: nat)
    requires
        pushed.len() >= capacity,
    ensures
        after_pushes(Seq::<T>::empty(), pushed, capacity).len() == capacity,
        after_pushes(Seq::<T>::empty(), pushed, capacity) == pushed.subrange(
            pushed.len() - capacity,
            pushed.len() as int,
        ),
{
    lemma_pushes_keep_the_last(Seq::<T>::empty(), pushed, capacity);
    assert(Seq::<T>::empty() + pushed =~= pushed);
    assert(keep_last(pushed, capacity) =~= pushed.subrange(
        pushed.len() - capacity,
        pushed.len() as int,
    ));
}

/// Length law: a store never holds more readings than its capacity, whatever
/// was pushed onto it.
pub proof fn law_store_never_exceeds_capacity<T>(start: Seq<T>, pushed: Seq<T>, capacity: nat)
    requires
        start.len() <= capacity,
    ensures
        after_pushes(start, pushed, capacity).len() <= capacity,
{
    lemma_pushes_keep_the_last(start, pushed, capacity);
}

/// Latest-reading law: in a store that can hold at least one reading, the
/// reading pushed last is the last one held, also after older readings were
/// overwritten.
pub proof fn law_latest_is_the_last_push<T>(start: Seq<T>, pushed: Seq<T>, capacity: nat)
    requires
        start.len() <= capacity,
        capacity > 0,
        pushed.len() > 0,
    ensures
        after_pushes(start, pushed, capacity).len() > 0,
        after_pushes(start, pushed, capacity).last() == pushed.last(),
{
    lemma_pushes_keep_the_last(start, pushed, capacity);
}

/// Moving the first `c` entries of `s` behind the rest keeps its sum, its
/// least and its greatest entry.
proof fn lemma_rotation_keeps_stats(s: Seq<int>, c: int, min: int, max: int)
    requires
        0 <= c <= s.len(),
        is_minimum_of(min, s),
        is_maximum_of(max, s),
    ensures
        sum_of(s.subrange(c, s.len() as int) + s.subrange(0, c)) == sum_of(s),
        is_minimum_of(min, s.subrange(c, s.len() as int) + s.subrange(0, c)),
        is_maximum_of(max, s.subrange(c, s.len() as int) + s.subrange(0, c)),
{
    let head = s.subrange(0, c);
    let tail = s.subrange(c, s.len() as int);
    let turned = tail + head;
    lemma_sum_of_concat(head, tail);
    lemma_sum_of_concat(tail, head);
    assert(head + tail =~= s);
    let lo = choose|k: int| 0 <= k < s.len() && s[k] == min;
    let hi = choose|k: int| 0 <= k < s.len() && s[k] == max;
    let lo_turned = if lo < c { lo + s.len() - c } else { lo - c };
    let hi_turned = if hi < c { hi + s.len() - c } else { hi - c };
    assert(turned[lo_turned] == min);
    assert(turned[hi_turned] == max);
    assert forall|k: int| 0 <= k < turned.len() implies min <= turned[k] && turned[k] <= max by {
        if k < tail.len() {
            assert(turned[k] == s[k + c]);
        } else {
            assert(turned[k] == s[k - tail.len()]);
        }
    }
}

/// The mean of `count` values whose sum is `sum`, rounded down.
fn floor_mean(sum: i128, count: usize) -> (mean: i32)
    requires
        count > 0,
        count * (i32::MIN as int) <= sum <= count * (i32::MAX as int),
    ensures
        mean == (sum as int) / (count as int),
{
    let n = count as i128;
    if sum >= 0 {
        let q = sum / n;
        proof {
            lemma_quotient_bounds(sum as int, n as int);
        }
        q as i32
    } else {
        let q = (n - 1 - sum) / n;
        proof {
            lemma_quotient_bounds(sum as int, n as int);
            lemma_floor_of_negative(sum as int, n as int);
        }
        (-q) as i32
    }
}

proof fn lemma_quotient_bounds(sum: int, n: int)
    by (nonlinear_arith)
    requires
        n > 0,
        n * (i32::MIN as int) <= sum <= n * (i32::MAX as int),
    ensures
        (i32::MIN as int) <= sum / n <= (i32::MAX as int),
{
}

proof fn lemma_floor_of_negative(sum: int, n: int)
    by (nonlinear_arith)
    requires
        n > 0,
        sum < 0,
    ensures
        -((n - 1 - sum) / n) == sum / n,
{
}

/// A store of at most `N` readings. Once it is full, each new reading takes
/// the place of the oldest one.
pub struct EmbeddedTemperatureStore<const N: usize> {
    /// The stored readings; while the store fills, oldest first.
    readings: Vec<EmbeddedTemperatureReading>,
    /// Once the store is full, where the oldest reading lies, which is the
    /// slot that the next push overwrites; zero before that.
    cursor: usize,
}

impl<const N: usize> View for EmbeddedTemperatureStore<N> {
    type V = Seq<EmbeddedTemperatureReading>;

    /// The stored readings, oldest first.
    closed spec fn view(&self) -> Seq<EmbeddedTemperatureReading> {
        self.readings@.subrange(self.cursor as int, self.readings@.len() as int)
            + self.readings@.subrange(0, self.cursor as int)
    }
}

impl<const N: usize> EmbeddedTemperatureStore<N> {
    #[verifier::type_invariant]
    spec fn well_formed(&self) -> bool {
        &&& self.readings@.len() <= N
        &&& self.cursor <= self.readings@.len()
        &&& self.readings@.len() < N ==> self.cursor == 0
        &&& self.readings@.len() == N && N > 0 ==> self.cursor < N
    }

    /// An empty store.
    pub fn new() -> (store: Self)
        ensures
            store@ == Seq::<EmbeddedTemperatureReading>::empty(),
    {
        let store = EmbeddedTemperatureStore { readings: Vec::with_capacity(N), cursor: 0 };
        assert(store@ =~= Seq::<EmbeddedTemperatureReading>::empty());
        store
    }

    /// The most readings that the store holds at a time.
    pub fn capacity(&self) -> (n: usize)
        ensures
            n == N,
    {
        N
    }

    /// The number of readings held.
    pub fn len(&self) -> (n: usize)
        ensures
            n == self@.len(),
            n <= N,
    {
        proof {
            use_type_invariant(self);
        }
        self.readings.len()
    }

    pub fn is_empty(&self) -> (b: bool)
        ensures
            b == (self@.len() == 0),
    {
        proof {
            use_type_invariant(self);
        }
        self.readings.len() == 0
    }

    pub fn is_full(&self) -> (b: bool)
        ensures
            b == (self@.len() == N),
    {
        proof {
            use_type_invariant(self);
        }
        self.readings.len() == N
    }

    /// Appends `reading`; a full store drops its oldest reading to make room.
    pub fn push(&mut self, reading: EmbeddedTemperatureReading)
        ensures
            final(self)@ == keep_last(old(self)@.push(reading), N as nat),
    {
        proof {
            use_type_invariant(&*self);
        }
        let at = self.cursor;
        let mut readings: Vec<EmbeddedTemperatureReading> = Vec::new();
        self.cursor = 0;
        core::mem::swap(&mut self.readings, &mut readings);
        let mut next: usize = 0;
        if N == 0 {
        } else if readings.len() < N {
            readings.push(reading);
        } else {
            readings.set(at, reading);
            next = if at + 1 == N { 0 } else { at + 1 };
        }
        core::mem::swap(&mut self.readings, &mut readings);
        self.cursor = next;
        assert(self@ =~= keep_last(old(self)@.push(reading), N as nat));
    }

    /// The reading pushed last, if the store holds any.
    pub fn latest(&self) -> (r: Option<EmbeddedTemperatureReading>)
        ensures
            r == if self@.len() == 0 {
                None
            } else {
                Some(self@.last())
            },
    {
        proof {
            use_type_invariant(self);
        }
        let n = self.readings.len();
        if n == 0 {
            None
        } else {
            let at = if self.cursor == 0 {
                n - 1
            } else {
                self.cursor - 1
            };
            Some(self.readings[at])
        }
    }

    /// The statistics of the readings held, or `None` for an empty store.
    pub fn statistics(&self) -> (r: Option<TemperatureStats>)
        ensures
            self@.len() == 0 <==> r is None,
            r matches Some(stats) ==> stats_describe(stats, self@),
    {
        proof {
            use_type_invariant(self);
        }
        let n = self.readings.len();
        if n == 0 {
            return None;
        }
        let ghost raw = millis_of(self.readings@);
        let first = self.readings[0].temperature.millicelsius;
        let mut min: i32 = first;
        let mut max: i32 = first;
        let mut sum: i128 = first as i128;
        let mut i: usize = 1;
        proof {
            assert(raw.subrange(0, 1).drop_last() =~= Seq::<int>::empty());
            assert(sum_of(Seq::<int>::empty()) == 0);
            assert(raw.subrange(0, 1).last() == first);
        }
        while i < n
            invariant
                1 <= i <= n,
                n == self.readings@.len(),
                raw == millis_of(self.readings@),
                sum == sum_of(raw.subrange(0, i as int)),
                i * (i32::MIN as int) <= sum <= i * (i32::MAX as int),
                is_minimum_of(min as int, raw.subrange(0, i as int)),
                is_maximum_of(max as int, raw.subrange(0, i as int)),
            decreases n - i,
        {
            let t = self.readings[i].temperature.millicelsius;
            proof {
                let before = raw.subrange(0, i as int);
                let after = raw.subrange(0, i + 1);
                assert(after.drop_last() =~= before);
                assert(after.last() == t);
                let lo = choose|k: int| 0 <= k < before.len() && before[k] == min;
                let hi = choose|k: int| 0 <= k < before.len() && before[k] == max;
                assert(after[lo] == min);
                assert(after[hi] == max);
                assert(after[i as int] == t);
                assert forall|k: int| 0 <= k < after.len() implies (if t < min {
                    t as int
                } else {
                    min as int
                }) <= after[k] by {
                    if k < i {
                        assert(after[k] == before[k]);
                    }
                }
                assert forall|k: int| 0 <= k < after.len() implies after[k] <= (if t > max {
                    t as int
                } else {
                    max as int
                }) by {
                    if k < i {
                        assert(after[k] == before[k]);
                    }
                }
                assert((i + 1) * (i32::MIN as int) == i * (i32::MIN as int) + (i32::MIN as int))
                    by (nonlinear_arith);
                assert((i + 1) * (i32::MAX as int) == i * (i32::MAX as int) + (i32::MAX as int))
                    by (nonlinear_arith);
            }
            if t < min {
                min = t;
            }
            if t > max {
                max = t;
            }
            sum = sum + t as i128;
            i = i + 1;
        }
        let average = floor_mean(sum, n);
        let stats = TemperatureStats {
            min: Temperature { millicelsius: min },
            max: Temperature { millicelsius: max },
            average: Temperature { millicelsius: average },
            count: n,
        };
        proof {
            assert(raw.subrange(0, n as int) =~= raw);
            self.lemma_view_is_rotation();
            lemma_rotation_keeps_stats(raw, self.cursor as int, min as int, max as int);
            assert(millis_of(self@) =~= raw.subrange(self.cursor as int, n as int) + raw.subrange(
                0,
                self.cursor as int,
            ));
        }
        Some(stats)
    }

    proof fn lemma_view_is_rotation(&self)
        ensures
            self@ == self.readings@.subrange(self.cursor as int, self.readings@.len() as int)
                + self.readings@.subrange(0, self.cursor as int),
    {
    }

    /// Removes every reading.
    pub fn clear(&mut self)
        ensures
            final(self)@ == Seq::<EmbeddedTemperatureReading>::empty(),
    {
        proof {
            use_type_invariant(&*self);
        }
        let mut readings: Vec<EmbeddedTemperatureReading> = Vec::new();
        self.cursor = 0;
        core::mem::swap(&mut self.readings, &mut readings);
        readings.clear();
        core::mem::swap(&mut self.readings, &mut readings);
        assert(self@ =~= Seq::<EmbeddedTemperatureReading>::empty());
    }
}

} // verus!
