//! The bounded time-series store: an append-only, capacity-bounded sequence
//! of readings with a cached running total and aggregate queries.

use vstd::prelude::*;

use std::collections::VecDeque;

use crate::arith::{is_isqrt, isqrt};
use crate::auth::is_authorized;
use crate::config::Config;
use crate::device::{valid_device_id, validate_device_id};
use crate::reading::{valid_reading, validate_volume, Reading, VolumeError, VolumeStatistics};
use crate::series::{
    consumed, day_of, day_total, has_day, lemma_day_total_le_sum, lemma_sq_sum_le,
    lemma_sum_bounds, lemma_sum_drop_first, lemma_sum_nonneg, lemma_sum_squares_bounds, max_value,
    min_value, paged, sum_squares, sum_values, variance, variance_num, win_count, win_max, win_min,
    win_seq,
};

verus! {

/// What a series looks like after appending one reading and evicting down to
/// the capacity bound, oldest first.
pub open spec fn appended(s: Seq<Reading>, r: Reading, cap: usize) -> Seq<Reading> {
    let grown = s.push(r);
    if grown.len() <= cap {
        grown
    } else {
        grown.skip(grown.len() - cap)
    }
}

/// How many readings a `recent` query returns: the requested count, clipped
/// to the capacity bound and to what is stored.
pub open spec fn recent_count(count: int, cap: int, len: int) -> int {
    let clipped = if count < cap {
        count
    } else {
        cap
    };
    if clipped < len {
        clipped
    } else {
        len
    }
}

/// Whether `d` appears in the day list.
pub open spec fn day_present(days: Seq<u64>, d: u64) -> bool {
    exists|k: int| 0 <= k < days.len() && days[k] == d
}

/// A field-by-field copy of a reading.
fn copy_reading(r: &Reading) -> (c: Reading)
    ensures
        c == *r,
{
    Reading {
        timestamp: r.timestamp,
        value: r.value,
        device_id: match &r.device_id {
            Some(id) => Some(id.clone()),
            None => None,
        },
    }
}

/// The bounded store. Mutating operations keep `len <= capacity` and the
/// cached total equal to the sum of the stored values.
pub struct BoundedTimeSeriesStore {
    readings: VecDeque<Reading>,
    total: u64,
    max_readings: usize,
    max_value: u64,
    id_max_len: usize,
}

impl View for BoundedTimeSeriesStore {
    type V = Seq<Reading>;

    closed spec fn view(&self) -> Seq<Reading> {
        self.readings@
    }
}

impl BoundedTimeSeriesStore {
    /// Capacity bound of the store.
    pub closed spec fn capacity(self) -> usize {
        self.max_readings
    }

    /// Largest admissible value, in thousandths of the unit.
    pub closed spec fn value_bound(self) -> u64 {
        self.max_value
    }

    /// Longest admissible device identifier.
    pub closed spec fn id_len_bound(self) -> usize {
        self.id_max_len
    }

    /// The cached running total matches the stored values.
    pub closed spec fn total_consistent(self) -> bool {
        self.total == sum_values(self@)
    }

    /// The store's invariant: configuration within machine limits, length
    /// within capacity, every stored reading valid, cached total consistent.
    pub open spec fn wf(self) -> bool {
        &&& 0 < self.capacity() <= 1_000_000
        &&& 0 < self.value_bound() <= 1_000_000_000_000
        &&& 0 < self.id_len_bound() <= 1_000_000
        &&& self@.len() <= self.capacity()
        &&& forall|i: int|
            0 <= i < self@.len() ==> valid_reading(
                #[trigger] self@[i],
                self.value_bound(),
                self.id_len_bound(),
            )
        &&& self.total_consistent()
    }

    /// A value/identifier pair the store admits.
    pub open spec fn admissible(self, value: i64, device_id: Option<String>) -> bool {
        &&& 0 <= value <= self.value_bound()
        &&& match device_id {
            Some(id) => valid_device_id(id@, self.id_len_bound() as int),
            None => true,
        }
    }

    /// An empty store under the given configuration.
    pub fn new(cfg: &Config) -> (s: BoundedTimeSeriesStore)
        requires
            cfg.wf(),
        ensures
            s.wf(),
            s@ == Seq::<Reading>::empty(),
            s.capacity() == cfg.max_readings,
            s.value_bound() == cfg.max_value,
            s.id_len_bound() == cfg.device_id_max_length,
    {
        BoundedTimeSeriesStore {
            readings: VecDeque::new(),
            total: 0,
            max_readings: cfg.max_readings,
            max_value: cfg.max_value,
            id_max_len: cfg.device_id_max_length,
        }
    }

    /// Number of stored readings.
    pub fn get_readings_count(&self) -> (n: usize)
        ensures
            n == self@.len(),
    {
        self.readings.len()
    }

    /// The running total of the stored values.
    pub fn get_total(&self) -> (t: u64)
        requires
            self.wf(),
        ensures
            t == sum_values(self@),
    {
        self.total
    }

    /// Appends a validated reading, evicting the oldest readings beyond the
    /// capacity bound. A rejected input leaves the store unchanged.
    pub fn append(&mut self, value: i64, timestamp: u64, device_id: Option<String>) -> (r: Result<
        (),
        VolumeError,
    >)
        requires
            old(self).wf(),
        ensures
            final(self).wf(),
            final(self).capacity() == old(self).capacity(),
            final(self).value_bound() == old(self).value_bound(),
            final(self).id_len_bound() == old(self).id_len_bound(),
            old(self).admissible(value, device_id) ==> r is Ok && final(self)@ == appended(
                old(self)@,
                Reading { timestamp, value: value as u64, device_id },
                old(self).capacity(),
            ),
            !old(self).admissible(value, device_id) ==> (r matches Err(e) && e is InvalidVolume)
                && final(self)@ == old(self)@,
    {
        match validate_volume(value, self.max_value) {
            Err(e) => {
                return Err(VolumeError::InvalidVolume(e));
            },
            Ok(()) => {},
        }
        match &device_id {
            Some(id) => {
                match validate_device_id(id.as_str(), self.id_max_len) {
                    Err(e) => {
                        return Err(VolumeError::InvalidVolume(e));
                    },
                    Ok(()) => {},
                }
            },
            None => {},
        }
        let reading = Reading { timestamp, value: value as u64, device_id };
        let ghost grown = old(self)@.push(reading);
        proof {
            lemma_sum_bounds(self@, self.max_value);
            assert((self@.len() as int) * (self.max_value as int) <= 1_000_000int
                * 1_000_000_000_000int) by (nonlinear_arith)
                requires
                    self@.len() <= 1_000_000,
                    self.max_value <= 1_000_000_000_000,
            ;
            assert(grown.drop_last() =~= old(self)@);
            assert(sum_values(grown) == sum_values(old(self)@) + value);
            assert(grown.skip(0) =~= grown);
        }
        self.readings.push_back(reading);
        self.total = self.total + (value as u64);
        let ghost mut evictions: int = 0;
        while self.readings.len() > self.max_readings
            invariant
                self.max_readings == old(self).max_readings,
                self.max_value == old(self).max_value,
                self.id_max_len == old(self).id_max_len,
                evictions == grown.len() - self.readings@.len(),
                0 <= evictions,
                evictions == 0 || self.readings@.len() + 1 > self.max_readings,
                self.readings@ == grown.skip(evictions),
                self.total == sum_values(self.readings@),
            decreases self.readings@.len(),
        {
            let ghost pre = self.readings@;
            proof {
                lemma_sum_drop_first(pre);
                lemma_sum_nonneg(pre.drop_first());
            }
            let front = self.readings.pop_front();
            match front {
                Some(evicted) => {
                    proof {
                        assert(evicted == pre[0]);
                        assert(self.readings@ =~= pre.drop_first());
                        assert(self.readings@ =~= grown.skip(evictions + 1));
                        evictions = evictions + 1;
                    }
                    self.total = self.total - evicted.value;
                },
                None => {
                    proof {
                        assert(false);
                    }
                },
            }
        }
        proof {
            let cap = self.max_readings as int;
            if evictions == 0 {
                assert(self.readings@ =~= grown);
            } else {
                assert(self.readings@.len() == cap);
                assert(self.readings@ =~= grown.skip(grown.len() - cap));
            }
            assert forall|i: int| 0 <= i < self.readings@.len() implies valid_reading(
                #[trigger] self.readings@[i],
                self.value_bound(),
                self.id_len_bound(),
            ) by {
                assert(self.readings@[i] == grown[evictions + i]);
                if evictions + i < grown.len() - 1 {
                    assert(valid_reading(
                        old(self)@[evictions + i],
                        old(self).value_bound(),
                        old(self).id_len_bound(),
                    ));
                } else {
                    assert(grown[evictions + i] == reading);
                }
            }
        }
        Ok(())
    }

    /// The most recent readings, most recent first: up to
    /// `min(count, capacity)` of them. An empty store is reported as
    /// `DataNotFound`, distinct from an empty result.
    pub fn get_recent_readings(&self, count: usize) -> (r: Result<Vec<Reading>, VolumeError>)
        requires
            self.wf(),
        ensures
            self@.len() == 0 ==> (r matches Err(e) && e is DataNotFound),
            self@.len() > 0 ==> (r matches Ok(v) && v@.len() == recent_count(
                count as int,
                self.capacity() as int,
                self@.len() as int,
            ) && (forall|j: int|
                0 <= j < v@.len() ==> #[trigger] v@[j] == self@[self@.len() - 1 - j])),
    {
        let n = self.readings.len();
        if n == 0 {
            return Err(VolumeError::DataNotFound);
        }
        let safe = if count < self.max_readings {
            count
        } else {
            self.max_readings
        };
        let take_n = if safe < n {
            safe
        } else {
            n
        };
        let mut out: Vec<Reading> = Vec::new();
        let mut i: usize = 0;
        while i < take_n
            invariant
                i <= take_n,
                out@.len() == i,
                forall|j: int| 0 <= j < i ==> #[trigger] out@[j] == self@[n - 1 - j],
            decreases take_n - i,
        {
            let r = copy_reading(&self.readings[n - 1 - i]);
            out.push(r);
            i = i + 1;
        }
        Ok(out)
    }

    /// The mean of the stored values, rounded down; `DataNotFound` on an
    /// empty store.
    pub fn get_average_volume(&self) -> (r: Result<u64, VolumeError>)
        requires
            self.wf(),
        ensures
            self@.len() == 0 ==> (r matches Err(e) && e is DataNotFound),
            self@.len() > 0 ==> (r matches Ok(a) && a == sum_values(self@) / (self@.len() as int)),
    {
        let n = self.readings.len();
        if n == 0 {
            return Err(VolumeError::DataNotFound);
        }
        Ok(self.total / (n as u64))
    }

    /// The latest stored cumulative total; `DataNotFound` on an empty store.
    pub fn get_current_total_volume(&self) -> (r: Result<u64, VolumeError>)
        requires
            self.wf(),
        ensures
            self@.len() == 0 ==> (r matches Err(e) && e is DataNotFound),
            self@.len() > 0 ==> (r matches Ok(v) && v == self@.last().value),
    {
        let n = self.readings.len();
        if n == 0 {
            return Err(VolumeError::DataNotFound);
        }
        Ok(self.readings[n - 1].value)
    }

    /// Aggregates over the whole series: count, total, mean, extrema, and
    /// the integer square root of the population variance. `DataNotFound` on
    /// an empty store.
    pub fn get_volume_statistics(&self) -> (r: Result<VolumeStatistics, VolumeError>)
        requires
            self.wf(),
        ensures
            self@.len() == 0 ==> (r matches Err(e) && e is DataNotFound),
            self@.len() > 0 ==> (r matches Ok(st) && st.count == self@.len() && st.total_volume
                == sum_values(self@) && st.average == sum_values(self@) / (self@.len() as int)
                && st.min == min_value(self@) && st.max == max_value(self@) && is_isqrt(
                st.std_deviation as int,
                variance(self@),
            ) && st.latest_volume == self@.last().value),
    {
        let n = self.readings.len();
        if n == 0 {
            return Err(VolumeError::DataNotFound);
        }
        let mut sum: u64 = 0;
        let mut sumsq: u128 = 0;
        let mut mn: u64 = self.readings[0].value;
        let mut mx: u64 = mn;
        let mut i: usize = 0;
        while i < n
            invariant
                i <= n,
                sum == sum_values(self@.take(i as int)),
                sumsq == sum_squares(self@.take(i as int)),
                i > 0 ==> mn == min_value(self@.take(i as int)) && mx == max_value(
                    self@.take(i as int),
                ),
                i == 0 ==> mn == self@[0].value && mx == self@[0].value,
            decreases n - i,
        {
            let ghost pre = self@.take(i as int);
            let v = self.readings[i].value;
            proof {
                assert(self@.take(i + 1).drop_last() =~= pre);
                assert(self@.take(i + 1).last() == self@[i as int]);
                assert(valid_reading(self@[i as int], self.value_bound(), self.id_len_bound()));
                lemma_sum_bounds(pre, self.max_value);
                lemma_sum_squares_bounds(pre, self.max_value);
                assert((pre.len() as int) * (self.max_value as int) <= 1_000_000int
                    * 1_000_000_000_000int) by (nonlinear_arith)
                    requires
                        pre.len() <= 1_000_000,
                        self.max_value <= 1_000_000_000_000,
                ;
                assert((v as int) * (v as int) <= 1_000_000_000_000int * 1_000_000_000_000int)
                    by (nonlinear_arith)
                    requires
                        v <= 1_000_000_000_000,
                ;
                assert((pre.len() as int) * ((self.max_value as int) * (self.max_value as int))
                    <= 1_000_000int * (1_000_000_000_000int * 1_000_000_000_000int))
                    by (nonlinear_arith)
                    requires
                        pre.len() <= 1_000_000,
                        self.max_value <= 1_000_000_000_000,
                ;
            }
            sum = sum + v;
            sumsq = sumsq + (v as u128) * (v as u128);
            if v < mn {
                mn = v;
            }
            if v > mx {
                mx = v;
            }
            i = i + 1;
        }
        proof {
            assert(self@.take(n as int) =~= self@);
        }
        let average = sum / (n as u64);
        let latest = self.readings[n - 1].value;
        let nn = n as u128;
        proof {
            lemma_sq_sum_le(self@);
            lemma_sum_bounds(self@, self.max_value);
            lemma_sum_squares_bounds(self@, self.max_value);
            assert((self@.len() as int) * (self.max_value as int) <= 1_000_000int
                * 1_000_000_000_000int) by (nonlinear_arith)
                requires
                    self@.len() <= 1_000_000,
                    self.max_value <= 1_000_000_000_000,
            ;
            assert((self@.len() as int) * ((self.max_value as int) * (self.max_value as int))
                <= 1_000_000int * (1_000_000_000_000int * 1_000_000_000_000int))
                by (nonlinear_arith)
                requires
                    self@.len() <= 1_000_000,
                    self.max_value <= 1_000_000_000_000,
            ;
            assert(nn * nn >= 1) by (nonlinear_arith)
                requires
                    nn >= 1,
            ;
            assert((nn as int) * (sumsq as int) <= 1_000_000int * (1_000_000int * (
            1_000_000_000_000int * 1_000_000_000_000int))) by (nonlinear_arith)
                requires
                    nn <= 1_000_000,
                    sumsq as int <= 1_000_000int * (1_000_000_000_000int * 1_000_000_000_000int),
            ;
            assert((sum as int) * (sum as int) <= (1_000_000int * 1_000_000_000_000int) * (
            1_000_000int * 1_000_000_000_000int)) by (nonlinear_arith)
                requires
                    sum as int <= 1_000_000int * 1_000_000_000_000int,
            ;
            assert((nn as int) * (nn as int) <= 1_000_000int * 1_000_000int) by (nonlinear_arith)
                requires
                    nn <= 1_000_000,
            ;
        }
        let num = nn * sumsq - (sum as u128) * (sum as u128);
        let var = num / (nn * nn);
        proof {
            assert(num as int == variance_num(self@));
            assert(var as int == variance(self@));
        }
        let sd = isqrt(var);
        Ok(
            VolumeStatistics {
                count: n,
                average,
                min: mn,
                max: mx,
                std_deviation: sd as u64,
                total_volume: sum,
                latest_volume: latest,
            },
        )
    }

    /// The magnitude consumed between `start` and `end` inclusive: the span
    /// between the largest and smallest cumulative totals recorded in that
    /// window, zero when the window holds no reading. `DataNotFound` on an
    /// empty store.
    pub fn get_volume_consumed(&self, start: u64, end: u64) -> (r: Result<u64, VolumeError>)
        requires
            self.wf(),
        ensures
            self@.len() == 0 ==> (r matches Err(e) && e is DataNotFound),
            self@.len() > 0 ==> (r matches Ok(c) && c == consumed(self@, start, end)),
    {
        let n = self.readings.len();
        if n == 0 {
            return Err(VolumeError::DataNotFound);
        }
        let mut found = false;
        let mut mn: u64 = 0;
        let mut mx: u64 = 0;
        let mut i: usize = 0;
        while i < n
            invariant
                i <= n,
                found <==> win_count(self@.take(i as int), start, end) > 0,
                found ==> mn == win_min(self@.take(i as int), start, end) && mx == win_max(
                    self@.take(i as int),
                    start,
                    end,
                ) && mn <= mx,
            decreases n - i,
        {
            let ghost pre = self@.take(i as int);
            proof {
                assert(self@.take(i + 1).drop_last() =~= pre);
                assert(self@.take(i + 1).last() == self@[i as int]);
            }
            let ts = self.readings[i].timestamp;
            let v = self.readings[i].value;
            if start <= ts && ts <= end {
                if !found {
                    found = true;
                    mn = v;
                    mx = v;
                } else {
                    if v < mn {
                        mn = v;
                    }
                    if v > mx {
                        mx = v;
                    }
                }
            }
            i = i + 1;
        }
        proof {
            assert(self@.take(n as int) =~= self@);
        }
        if found {
            Ok(mx - mn)
        } else {
            Ok(0)
        }
    }

    /// A copy of every stored reading, oldest first, for export;
    /// `DataNotFound` on an empty store.
    pub fn export_all_readings(&self) -> (r: Result<Vec<Reading>, VolumeError>)
        requires
            self.wf(),
        ensures
            self@.len() == 0 ==> (r matches Err(e) && e is DataNotFound),
            self@.len() > 0 ==> (r matches Ok(v) && v@ == self@),
    {
        let n = self.readings.len();
        if n == 0 {
            return Err(VolumeError::DataNotFound);
        }
        let mut out: Vec<Reading> = Vec::new();
        let mut i: usize = 0;
        while i < n
            invariant
                i <= n,
                out@ == self@.take(i as int),
            decreases n - i,
        {
            let r = copy_reading(&self.readings[i]);
            out.push(r);
            proof {
                assert(out@ =~= self@.take(i + 1));
            }
            i = i + 1;
        }
        proof {
            assert(self@.take(n as int) =~= self@);
        }
        Ok(out)
    }

    /// A page of the readings whose timestamps fall in `[from, to]`: the
    /// first `skip` matches are passed over, then up to `limit` are
    /// returned, in storage order.
    pub fn get_water_readings_filtered(&self, skip: u64, limit: u64, from: u64, to: u64) -> (r: Vec<
        Reading,
    >)
        requires
            self.wf(),
        ensures
            r@ == paged(win_seq(self@, from, to), skip, limit),
    {
        let n = self.readings.len();
        let mut matched: Vec<Reading> = Vec::new();
        let mut i: usize = 0;
        proof {
            assert(win_seq(self@.take(0), from, to) =~= Seq::<Reading>::empty());
        }
        while i < n
            invariant
                i <= n,
                matched@ == win_seq(self@.take(i as int), from, to),
            decreases n - i,
        {
            proof {
                assert(self@.take(i + 1).drop_last() =~= self@.take(i as int));
                assert(self@.take(i + 1).last() == self@[i as int]);
            }
            let ts = self.readings[i].timestamp;
            if from <= ts && ts <= to {
                matched.push(copy_reading(&self.readings[i]));
            }
            i = i + 1;
        }
        proof {
            assert(self@.take(n as int) =~= self@);
        }
        let m = matched.len();
        let start = if skip < m as u64 {
            skip as usize
        } else {
            m
        };
        let want = if limit < (m - start) as u64 {
            limit as usize
        } else {
            m - start
        };
        let mut out: Vec<Reading> = Vec::new();
        let mut k: usize = 0;
        while k < want
            invariant
                k <= want,
                out@.len() == k,
                forall|p: int| 0 <= p < k ==> #[trigger] out@[p] == matched@[start + p],
            decreases want - k,
        {
            out.push(copy_reading(&matched[start + k]));
            k = k + 1;
        }
        proof {
            assert(out@ =~= paged(matched@, skip, limit));
        }
        out
    }

    /// Usage grouped by day: one entry per day that holds a reading, days
    /// strictly ascending, each carrying the sum of that day's values.
    pub fn get_daily_usage(&self) -> (r: Vec<(u64, u64)>)
        requires
            self.wf(),
        ensures
            forall|k1: int, k2: int|
                0 <= k1 < k2 < r@.len() ==> (#[trigger] r@[k1]).0 < (#[trigger] r@[k2]).0,
            forall|k: int|
                0 <= k < r@.len() ==> has_day(self@, (#[trigger] r@[k]).0) && r@[k].1 == day_total(
                    self@,
                    r@[k].0,
                ),
            forall|d: u64| #[trigger] has_day(self@, d) ==> day_present(r@.map_values(|p: (u64, u64)| p.0), d),
    {
        let n = self.readings.len();
        let mut days: Vec<u64> = Vec::new();
        let mut i: usize = 0;
        proof {
            assert(self@.take(0) =~= Seq::<Reading>::empty());
        }
        while i < n
            invariant
                i <= n,
                forall|k1: int, k2: int|
                    0 <= k1 < k2 < days@.len() ==> (#[trigger] days@[k1]) < (#[trigger] days@[k2]),
                forall|k: int|
                    0 <= k < days@.len() ==> has_day(self@.take(i as int), #[trigger] days@[k]),
                forall|d: u64|
                    #[trigger] has_day(self@.take(i as int), d) ==> day_present(days@, d),
            decreases n - i,
        {
            let ghost pre = self@.take(i as int);
            let d = self.readings[i].timestamp / 86400;
            proof {
                assert(self@.take(i + 1).drop_last() =~= pre);
                assert(self@.take(i + 1).last() == self@[i as int]);
                assert(day_of(self@[i as int]) == d);
                assert forall|x: u64| #[trigger] has_day(self@.take(i + 1), x) implies (has_day(
                    pre,
                    x,
                ) || x == d) by {
                    let w = choose|w: int|
                        0 <= w < self@.take(i + 1).len() && day_of(
                            #[trigger] self@.take(i + 1)[w],
                        ) == x;
                    if w < i {
                        assert(self@.take(i + 1)[w] == pre[w]);
                        assert(day_of(pre[w]) == x);
                    } else {
                        assert(self@.take(i + 1)[w] == self@[i as int]);
                    }
                }
                assert forall|x: u64| has_day(pre, x) implies #[trigger] has_day(
                    self@.take(i + 1),
                    x,
                ) by {
                    let w = choose|w: int| 0 <= w < pre.len() && day_of(#[trigger] pre[w]) == x;
                    assert(self@.take(i + 1)[w] == pre[w]);
                    assert(day_of(self@.take(i + 1)[w]) == x);
                }
                assert(has_day(self@.take(i + 1), d)) by {
                    assert(day_of(self@.take(i + 1)[i as int]) == d);
                }
            }
            let m = days.len();
            let mut pos: usize = 0;
            while pos < m && days[pos] < d
                invariant
                    pos <= m,
                    forall|j: int| 0 <= j < pos ==> (#[trigger] days@[j]) < d,
                decreases m - pos,
            {
                pos = pos + 1;
            }
            if pos < m && days[pos] == d {
                proof {
                    assert(day_present(days@, d));
                }
            } else {
                proof {
                    days@.insert_ensures(pos as int, d);
                    assert forall|j: int| 0 <= j < days@.len() implies (#[trigger] days@[j])
                        != d by {
                        if j < pos {
                        } else {
                            assert(days@[pos as int] <= days@[j]);
                        }
                    }
                }
                let ghost old_days = days@;
                days.insert(pos, d);
                proof {
                    assert forall|k1: int, k2: int|
                        0 <= k1 < k2 < days@.len() implies (#[trigger] days@[k1]) < (
                    #[trigger] days@[k2]) by {
                        if k2 < pos {
                        } else if k1 == pos {
                            assert(days@[k2] == old_days[k2 - 1]);
                            assert(old_days[pos as int] <= old_days[k2 - 1]);
                        } else if k2 == pos {
                            assert(days@[k1] == old_days[k1]);
                        } else if k1 < pos {
                            assert(days@[k1] == old_days[k1]);
                            assert(days@[k2] == old_days[k2 - 1]);
                            assert(pos <= k2 - 1 < old_days.len());
                            if k2 - 1 == pos {
                            } else {
                                assert(old_days[pos as int] <= old_days[k2 - 1]);
                            }
                        } else {
                            assert(days@[k1] == old_days[k1 - 1]);
                            assert(days@[k2] == old_days[k2 - 1]);
                        }
                    }
                    assert(day_present(days@, d)) by {
                        assert(days@[pos as int] == d);
                    }
                    assert forall|x: u64| day_present(old_days, x) implies day_present(
                        days@,
                        x,
                    ) by {
                        let k = choose|k: int| 0 <= k < old_days.len() && old_days[k] == x;
                        if k < pos {
                            assert(days@[k] == x);
                        } else {
                            assert(days@[k + 1] == x);
                        }
                    }
                }
            }
            i = i + 1;
        }
        proof {
            assert(self@.take(n as int) =~= self@);
        }
        let m = days.len();
        let mut out: Vec<(u64, u64)> = Vec::new();
        let mut k: usize = 0;
        while k < m
            invariant
                k <= m,
                out@.len() == k,
                forall|p: int|
                    0 <= p < k ==> (#[trigger] out@[p]).0 == days@[p] && out@[p].1 == day_total(
                        self@,
                        days@[p],
                    ),
            decreases m - k,
        {
            let d = days[k];
            let mut t: u64 = 0;
            let mut j: usize = 0;
            proof {
                assert(self@.take(0) =~= Seq::<Reading>::empty());
            }
            while j < n
                invariant
                    j <= n,
                    t == day_total(self@.take(j as int), d),
                decreases n - j,
            {
                proof {
                    assert(self@.take(j + 1).drop_last() =~= self@.take(j as int));
                    assert(self@.take(j + 1).last() == self@[j as int]);
                    lemma_day_total_le_sum(self@.take(j as int), d);
                    lemma_sum_bounds(self@.take(j as int), self.max_value);
                    assert((self@.take(j as int).len() as int) * (self.max_value as int)
                        <= 1_000_000int * 1_000_000_000_000int) by (nonlinear_arith)
                        requires
                            self@.take(j as int).len() <= 1_000_000,
                            self.max_value <= 1_000_000_000_000,
                    ;
                    assert(valid_reading(self@[j as int], self.value_bound(), self.id_len_bound()));
                }
                let ts = self.readings[j].timestamp;
                if ts / 86400 == d {
                    t = t + self.readings[j].value;
                }
                j = j + 1;
            }
            proof {
                assert(self@.take(n as int) =~= self@);
            }
            out.push((d, t));
            k = k + 1;
        }
        proof {
            assert forall|d: u64| #[trigger] has_day(self@, d) implies day_present(
                out@.map_values(|p: (u64, u64)| p.0),
                d,
            ) by {
                let kk = choose|kk: int| 0 <= kk < days@.len() && days@[kk] == d;
                assert(out@.map_values(|p: (u64, u64)| p.0)[kk] == d);
            }
        }
        out
    }

    /// The administrative reset: clears the store only for a caller that
    /// holds the administrative capability; anyone else is turned away with
    /// the store untouched.
    pub fn reset_data(&mut self, admins: &Vec<String>, caller: &String) -> (r: Result<
        (),
        VolumeError,
    >)
        requires
            old(self).wf(),
        ensures
            final(self).wf(),
            final(self).capacity() == old(self).capacity(),
            final(self).value_bound() == old(self).value_bound(),
            final(self).id_len_bound() == old(self).id_len_bound(),
            (exists|i: int| 0 <= i < admins@.len() && (#[trigger] admins@[i])@ == caller@) ==> r
                is Ok && final(self)@ == Seq::<Reading>::empty(),
            !(exists|i: int| 0 <= i < admins@.len() && (#[trigger] admins@[i])@ == caller@) ==> (
            r matches Err(e) && e is Unauthorized) && final(self)@ == old(self)@,
    {
        if !is_authorized(admins, caller) {
            return Err(VolumeError::Unauthorized("Unauthorized".to_string()));
        }
        self.clear_all_readings();
        Ok(())
    }

    /// Clears the store and zeroes the running total.
    pub fn clear_all_readings(&mut self)
        requires
            old(self).wf(),
        ensures
            final(self).wf(),
            final(self)@ == Seq::<Reading>::empty(),
            final(self).capacity() == old(self).capacity(),
            final(self).value_bound() == old(self).value_bound(),
            final(self).id_len_bound() == old(self).id_len_bound(),
    {
        self.readings.clear();
        self.total = 0;
    }
}

} // verus!
