//! Marching-bucket histories of a metric at several granularities.
use vstd::prelude::*;

verus! {

/// Largest value among all but the newest (still filling) slot.
pub open spec fn max_of_settled(s: Seq<u64>) -> u64
    decreases s.len(),
{
    if s.len() <= 1 {
        0
    } else {
        let m = max_of_settled(s.drop_last());
        let v = s[s.len() - 2];
        if v > m { v } else { m }
    }
}

/// Smallest value among all but the newest (still filling) slot.
pub open spec fn min_of_settled(s: Seq<u64>) -> u64
    decreases s.len(),
{
    if s.len() <= 1 {
        u64::MAX
    } else {
        let m = min_of_settled(s.drop_last());
        let v = s[s.len() - 2];
        if v < m { v } else { m }
    }
}

/// The largest value of the slots before the last one (0 when there are none).
pub fn get_max_buckets_value(buckets: &Vec<u64>) -> (r: u64)
    requires
        buckets@.len() >= 1,
    ensures
        r == max_of_settled(buckets@),
{
    let mut max: u64 = 0;
    let n = buckets.len() - 1;
    let mut i: usize = 0;
    while i < n
        invariant
            n == buckets@.len() - 1,
            i <= n,
            max == max_of_settled(buckets@.subrange(0, i as int + 1)),
        decreases n - i,
    {
        proof {
            let s = buckets@.subrange(0, i as int + 2);
            assert(s.drop_last() =~= buckets@.subrange(0, i as int + 1));
        }
        if buckets[i] > max {
            max = buckets[i];
        }
        i = i + 1;
    }
    assert(buckets@.subrange(0, n as int + 1) =~= buckets@);
    max
}

/// The smallest value of the slots before the last one (`u64::MAX` when there are none).
pub fn get_min_buckets_value(buckets: &Vec<u64>) -> (r: u64)
    requires
        buckets@.len() >= 1,
    ensures
        r == min_of_settled(buckets@),
{
    let mut min: u64 = u64::MAX;
    let n = buckets.len() - 1;
    let mut i: usize = 0;
    while i < n
        invariant
            n == buckets@.len() - 1,
            i <= n,
            min == min_of_settled(buckets@.subrange(0, i as int + 1)),
        decreases n - i,
    {
        proof {
            let s = buckets@.subrange(0, i as int + 2);
            assert(s.drop_last() =~= buckets@.subrange(0, i as int + 1));
        }
        if buckets[i] < min {
            min = buckets[i];
        }
        i = i + 1;
    }
    assert(buckets@.subrange(0, n as int + 1) =~= buckets@);
    min
}


/// The newest `width` values of `buckets` (all of them when there are fewer).
pub fn buckets_right_justify(buckets: &Vec<u64>, width: u16) -> (r: Vec<u64>)
    ensures
        r@ == if (width as int) < buckets@.len() {
            buckets@.subrange(buckets@.len() - width as int, buckets@.len() as int)
        } else {
            buckets@
        },
{
    let width = width as usize;
    let start = if width < buckets.len() { buckets.len() - width } else { 0 };
    let mut out: Vec<u64> = Vec::new();
    let mut i = start;
    while i < buckets.len()
        invariant
            start <= i <= buckets@.len(),
            out@ == buckets@.subrange(start as int, i as int),
        decreases buckets@.len() - i,
    {
        out.push(buckets[i]);
        i = i + 1;
        proof {
            assert(out@ =~= buckets@.subrange(start as int, i as int));
        }
    }
    proof {
        assert(buckets@.subrange(0, buckets@.len() as int) =~= buckets@);
    }
    out
}

/// Unit in which a span of time is best read.
#[derive(Clone, Copy, PartialEq, Eq, Structural, Debug)]
pub enum DurationUnit {
    Years,
    Weeks,
    Days,
    Hours,
    Minutes,
    Seconds,
}

/// How a span of `d` nanoseconds reads: in years beyond 104 whole weeks, in weeks beyond
/// 4, in days beyond 48 whole hours, in hours beyond 2, in minutes beyond 5, and otherwise
/// in whole seconds; `None` below one second.
pub open spec fn duration_parts(d: int) -> Option<(int, DurationUnit)> {
    let s = d / 1_000_000_000int;
    if d <= 0 || s == 0 {
        None
    } else if s / 604800int > 104 {
        Some((s / 86400int / 365int, DurationUnit::Years))
    } else if s / 604800int > 4 {
        Some((s / 604800int, DurationUnit::Weeks))
    } else if s / 3600int > 48 {
        Some((s / 86400int, DurationUnit::Days))
    } else if s / 3600int > 2 {
        Some((s / 3600int, DurationUnit::Hours))
    } else if s / 60int > 5 {
        Some((s / 60int, DurationUnit::Minutes))
    } else {
        Some((s, DurationUnit::Seconds))
    }
}

/// The amount and unit of the text that describes a span of `duration` nanoseconds (see
/// `duration_parts`).
pub fn get_duration_text(duration: i64) -> (r: Option<(i64, DurationUnit)>)
    ensures
        match duration_parts(duration as int) {
            Some((n, u)) => r == Some((n as i64, u)),
            None => r is None,
        },
{
    if duration <= 0 {
        return None;
    }
    let s = duration / 1_000_000_000;
    if s == 0 {
        None
    } else if s / (7 * 86400) > 104 {
        Some((s / 86400 / 365, DurationUnit::Years))
    } else if s / (7 * 86400) > 4 {
        Some((s / (7 * 86400), DurationUnit::Weeks))
    } else if s / 3600 > 48 {
        Some((s / 86400, DurationUnit::Days))
    } else if s / 3600 > 2 {
        Some((s / 3600, DurationUnit::Hours))
    } else if s / 60 > 5 {
        Some((s / 60, DurationUnit::Minutes))
    } else {
        Some((s, DurationUnit::Seconds))
    }
}

/// Which of the per-slot statistics of a statistical bucket set to show.
#[derive(Clone, Copy, PartialEq, Eq, Structural, Debug)]
pub enum MinMeanMax {
    Min,
    Mean,
    Max,
}

/// The aggregates of one time slot of a statistical bucket set.
#[derive(Clone, Copy, PartialEq, Eq, Structural, Debug)]
pub struct SlotStat {
    pub count: u64,
    pub total: u128,
    pub min: u64,
    pub mean: u64,
    pub max: u64,
    /// Set when the slot is opened; cleared by the first sample that lands in it.
    pub needs_init: bool,
}

/// A freshly opened slot, not yet touched by a sample.
pub open spec fn fresh_slot() -> SlotStat {
    SlotStat { count: 0, total: 0, min: 0, mean: 0, max: 0, needs_init: true }
}

/// A slot's aggregates are consistent: untouched, or every sample lies between
/// `min` and `max` and `mean` is the truncated average.
pub open spec fn slot_consistent(s: SlotStat) -> bool {
    s.needs_init || {
        &&& s.count >= 1
        &&& s.min <= s.max
        &&& s.count * s.min <= s.total <= s.count * s.max
        &&& s.mean == (s.total as int) / (s.count as int)
    }
}

/// The slot after one more sample `v`.
pub open spec fn slot_with_sample(s: SlotStat, v: u64) -> SlotStat {
    let b = if s.needs_init {
        SlotStat { count: 0, total: 0, min: u64::MAX, mean: 0, max: 0, needs_init: false }
    } else {
        s
    };
    if b.count == u64::MAX {
        b
    } else {
        SlotStat {
            count: (b.count + 1) as u64,
            total: (b.total + v) as u128,
            min: if v < b.min { v } else { b.min },
            mean: ((b.total + v) as int / (b.count + 1) as int) as u64,
            max: if v > b.max { v } else { b.max },
            needs_init: false,
        }
    }
}

/// Number of slot boundaries passed when a window anchored at `anchor` moves on to `now`.
pub open spec fn crossings(anchor: int, dur: int, now: int) -> nat
    decreases now - anchor,
{
    if dur > 0 && anchor + dur < now {
        1 + crossings(anchor + dur, dur, now)
    } else {
        0
    }
}

/// Opens one new slot holding `fill` at the end and drops the oldest.
pub open spec fn step_ring<T>(s: Seq<T>, fill: T) -> Seq<T> {
    s.push(fill).drop_first()
}

/// The ring after `k` new slots were opened.
pub open spec fn shift_ring<T>(s: Seq<T>, k: nat, fill: T) -> Seq<T>
    decreases k,
{
    if k == 0 {
        s
    } else {
        step_ring(shift_ring(s, (k - 1) as nat, fill), fill)
    }
}

/// Sum of a ring of values.
pub open spec fn ring_sum(s: Seq<u64>) -> int
    decreases s.len(),
{
    if s.len() == 0 {
        0
    } else {
        ring_sum(s.drop_last()) + s.last()
    }
}

/// `v`, held at `u128::MAX`.
pub open spec fn sat_u128(v: int) -> u128 {
    if v > u128::MAX { u128::MAX } else { v as u128 }
}

/// The running total `t` after `k` slots are opened on ring `s`: each evicted value is
/// taken off, stopping at zero.
pub open spec fn evict_total(t: u128, s: Seq<u64>, k: nat) -> u128
    decreases k,
{
    if k == 0 {
        t
    } else {
        let t1 = evict_total(t, s, (k - 1) as nat);
        let e = shift_ring(s, (k - 1) as nat, 0u64).push(0u64)[0];
        if t1 >= e { (t1 - e) as u128 } else { 0 }
    }
}

/// `a + b`, held at `u64::MAX`.
pub open spec fn sat_add(a: u64, b: u64) -> u64 {
    if a + b > u64::MAX { u64::MAX } else { (a + b) as u64 }
}

/// The slot that a sample taken at `t` belongs to, counted from the oldest slot, or `None`
/// when it is too old for a ring of `n` slots of `dur` nanoseconds whose newest slot
/// starts at `anchor`. A sample at or after the anchor goes to the newest slot.
pub open spec fn routed_slot(anchor: Option<i64>, dur: int, n: int, t: int) -> Option<int> {
    match anchor {
        Some(a) if t < a => {
            let behind = (a - t) / dur;
            if behind >= n { None } else { Some(n - 1 - behind) }
        },
        _ => Some(n - 1),
    }
}

pub proof fn lemma_ring_sum_push(s: Seq<u64>, v: u64)
    ensures
        ring_sum(s.push(v)) == ring_sum(s) + v,
{
    assert(s.push(v).drop_last() =~= s);
}

pub proof fn lemma_ring_sum_first(s: Seq<u64>)
    requires
        s.len() >= 1,
    ensures
        ring_sum(s) == s[0] + ring_sum(s.drop_first()),
    decreases s.len(),
{
    if s.len() > 1 {
        lemma_ring_sum_first(s.drop_last());
        assert(s.drop_last().drop_first() =~= s.drop_first().drop_last());
        assert(s.drop_first().last() == s.last());
        assert(ring_sum(s.drop_first()) == ring_sum(s.drop_first().drop_last()) + s.drop_first().last());
    } else {
        assert(s.drop_last().len() == 0);
        assert(s.drop_first().len() == 0);
        assert(ring_sum(s.drop_first()) == 0);
        assert(ring_sum(s.drop_last()) == 0);
    }
}

pub proof fn lemma_ring_sum_update(s: Seq<u64>, i: int, v: u64)
    requires
        0 <= i < s.len(),
    ensures
        ring_sum(s.update(i, v)) == ring_sum(s) - s[i] + v,
    decreases s.len(),
{
    if i == s.len() - 1 {
        assert(s.update(i, v).drop_last() =~= s.drop_last());
    } else {
        lemma_ring_sum_update(s.drop_last(), i, v);
        assert(s.update(i, v).drop_last() =~= s.drop_last().update(i, v));
    }
}

pub proof fn lemma_ring_sum_bound(s: Seq<u64>)
    ensures
        0 <= ring_sum(s) <= s.len() * (u64::MAX as int),
    decreases s.len(),
{
    if s.len() > 0 {
        lemma_ring_sum_bound(s.drop_last());
        assert(ring_sum(s) <= (s.len() - 1) * (u64::MAX as int) + u64::MAX) by {
            assert(s.last() <= u64::MAX);
        }
        assert((s.len() - 1) * (u64::MAX as int) + u64::MAX == s.len() * (u64::MAX as int))
            by (nonlinear_arith);
    }
}

pub proof fn lemma_usize_bound_sum(n: int)
    requires
        0 <= n <= usize::MAX,
    ensures
        n * (u64::MAX as int) + u64::MAX <= u128::MAX,
{
    assert(n * (u64::MAX as int) <= (usize::MAX as int) * (u64::MAX as int)) by (nonlinear_arith)
        requires
            0 <= n <= usize::MAX,
    ;
}

pub proof fn lemma_shift_len<T>(s: Seq<T>, k: nat, fill: T)
    ensures
        shift_ring(s, k, fill).len() == s.len(),
    decreases k,
{
    if k > 0 {
        lemma_shift_len(s, (k - 1) as nat, fill);
    }
}

/// Opening `a` slots and then `b` more is opening `a + b` slots.
pub proof fn lemma_shift_add<T>(s: Seq<T>, a: nat, b: nat, fill: T)
    ensures
        shift_ring(shift_ring(s, a, fill), b, fill) == shift_ring(s, a + b, fill),
    decreases b,
{
    if b > 0 {
        lemma_shift_add(s, a, (b - 1) as nat, fill);
    }
}

/// After `k` boundary crossings the newest `min(k, n)` slots are fresh and the rest are the
/// newest slots of the old ring, in order.
pub proof fn lemma_shift_shape<T>(s: Seq<T>, k: nat, fill: T, i: int)
    requires
        s.len() >= 1,
        0 <= i < s.len(),
    ensures
        shift_ring(s, k, fill)[i] == (if i + k < s.len() { s[i + k] } else { fill }),
    decreases k,
{
    if k > 0 {
        let p = shift_ring(s, (k - 1) as nat, fill);
        lemma_shift_len(s, (k - 1) as nat, fill);
        lemma_shift_shape(s, (k - 1) as nat, fill, i);
        if i + 1 < s.len() {
            lemma_shift_shape(s, (k - 1) as nat, fill, i + 1);
        }
    }
}

/// Crossing from `a` to `t1` and then to `t2` passes the boundaries of crossing from `a`
/// to `t2` once each.
pub proof fn lemma_crossings_compose(a: int, dur: int, t1: int, t2: int)
    requires
        dur > 0,
        t1 <= t2,
    ensures
        crossings(a, dur, t1) + crossings(a + crossings(a, dur, t1) * dur, dur, t2)
            == crossings(a, dur, t2),
    decreases t1 - a,
{
    if a + dur < t1 {
        lemma_crossings_compose(a + dur, dur, t1, t2);
        let k = crossings(a + dur, dur, t1);
        assert(a + (1 + k) * dur == a + dur + k * dur) by (nonlinear_arith);
    } else {
        assert(a + 0 * dur == a);
    }
}

pub proof fn lemma_crossings_end(a: int, dur: int, t: int)
    requires
        dur > 0,
    ensures
        !(a + crossings(a, dur, t) * dur + dur < t),
        a + crossings(a, dur, t) * dur <= if t > a { t } else { a },
    decreases t - a,
{
    if a + dur < t {
        lemma_crossings_end(a + dur, dur, t);
        let k = crossings(a + dur, dur, t);
        assert(a + (1 + k) * dur == a + dur + k * dur) by (nonlinear_arith);
    } else {
        assert(a + 0 * dur == a);
    }
}

/// A consistent slot's mean lies between its minimum and maximum.
pub proof fn lemma_slot_mean_between(s: SlotStat)
    requires
        slot_consistent(s),
        !s.needs_init,
    ensures
        s.min <= s.mean <= s.max,
        s.mean as int == (s.total as int) / (s.count as int),
{
    let c = s.count as int;
    let t = s.total as int;
    assert(s.min as int <= t / c) by (nonlinear_arith)
        requires
            c >= 1,
            c * (s.min as int) <= t,
    {
        vstd::arithmetic::div_mod::lemma_div_is_ordered(c * (s.min as int), t, c);
        vstd::arithmetic::div_mod::lemma_div_multiples_vanish(s.min as int, c);
    }
    assert(t / c <= s.max as int) by (nonlinear_arith)
        requires
            c >= 1,
            t <= c * (s.max as int),
    {
        vstd::arithmetic::div_mod::lemma_div_is_ordered(t, c * (s.max as int), c);
        vstd::arithmetic::div_mod::lemma_div_multiples_vanish(s.max as int, c);
    }
}

/// Adds sample `v` to a slot, opening it first if it is still untouched. A slot that
/// already holds `u64::MAX` samples is left as it is.
pub fn add_to_slot(s: SlotStat, v: u64) -> (r: SlotStat)
    requires
        slot_consistent(s),
    ensures
        r == slot_with_sample(s, v),
        slot_consistent(r),
{
    let b = if s.needs_init {
        SlotStat { count: 0, total: 0, min: u64::MAX, mean: 0, max: 0, needs_init: false }
    } else {
        s
    };
    if b.count == u64::MAX {
        return b;
    }
    let ghost c = b.count as int;
    let ghost t = b.total as int;
    let ghost m = b.min as int;
    let ghost mx = b.max as int;
    let new_min = if v < b.min { v } else { b.min };
    let new_max = if v > b.max { v } else { b.max };
    proof {
        assert(c * m <= t <= c * mx);
        assert(t <= c * (u64::MAX as int)) by (nonlinear_arith)
            requires
                t <= c * mx,
                mx <= u64::MAX,
                c >= 0,
        ;
        assert(c * (u64::MAX as int) + u64::MAX <= u128::MAX) by (nonlinear_arith)
            requires
                0 <= c < u64::MAX,
        ;
        assert((c + 1) * (new_min as int) <= t + v) by (nonlinear_arith)
            requires
                c * m <= t,
                new_min <= m,
                new_min <= v,
                c >= 0,
        ;
        assert(t + v <= (c + 1) * (new_max as int)) by (nonlinear_arith)
            requires
                t <= c * mx,
                mx <= new_max,
                v <= new_max,
                c >= 0,
        ;
    }
    let count = b.count + 1;
    let total = b.total + v as u128;
    let mean128 = total / (count as u128);
    proof {
        assert(c == 0 ==> new_min == v && new_max == v);
        assert(new_min <= new_max);
        assert((total as int) / (count as int) <= new_max as int) by {
            vstd::arithmetic::div_mod::lemma_div_is_ordered(total as int, (count as int) * (new_max as int), count as int);
            vstd::arithmetic::div_mod::lemma_div_multiples_vanish(new_max as int, count as int);
        }
    }
    let mean = mean128 as u64;
    SlotStat { count, total, min: new_min, mean, max: new_max, needs_init: false }
}

/// An optional slot index as a mathematical integer.
pub open spec fn as_int_index(r: Option<usize>) -> Option<int> {
    match r {
        Some(i) => Some(i as int),
        None => None,
    }
}

/// The figure of slot `s` shown for display mode `mode`.
pub open spec fn stat_shown(s: SlotStat, mode: Option<MinMeanMax>) -> u64 {
    match mode {
        Some(MinMeanMax::Min) => s.min,
        Some(MinMeanMax::Max) => s.max,
        _ => s.mean,
    }
}

/// The span a history covers, from its earliest and latest update times.
pub open spec fn covered_span(earliest: Option<i64>, latest: Option<i64>, dur: int, n: int) -> Option<i128> {
    match (earliest, latest) {
        (Some(e), Some(l)) => {
            let span = l - e;
            if span < dur * n && span >= 1_000_000_000 {
                Some(span as i128)
            } else if span == 0 {
                Some(dur as i128)
            } else {
                Some((dur * n) as i128)
            }
        },
        _ => None,
    }
}

/// A sample exactly `n` slots behind the newest slot's start is dropped, and one a slot
/// less behind lands in the oldest slot.
pub proof fn lemma_routing_boundary(anchor: i64, dur: int, n: int)
    requires
        dur > 0,
        n >= 1,
    ensures
        routed_slot(Some(anchor), dur, n, anchor - dur * n) is None,
        routed_slot(Some(anchor), dur, n, anchor - dur * (n - 1)) == Some(0int),
{
    assert(dur * n > 0) by (nonlinear_arith)
        requires
            dur > 0,
            n >= 1,
    ;
    assert((dur * n) / dur == n) by {
        vstd::arithmetic::div_mod::lemma_div_multiples_vanish(n, dur);
        assert(dur * n == n * dur) by (nonlinear_arith);
    }
    if n > 1 {
        assert(dur * (n - 1) > 0) by (nonlinear_arith)
            requires
                dur > 0,
                n > 1,
        ;
        assert((dur * (n - 1)) / dur == n - 1) by {
            vstd::arithmetic::div_mod::lemma_div_multiples_vanish(n - 1, dur);
            assert(dur * (n - 1) == (n - 1) * dur) by (nonlinear_arith);
        }
    } else {
        assert(dur * (n - 1) == 0) by (nonlinear_arith)
            requires
                n == 1,
        ;
    }
}

/// `b` is a bucket set of `n` empty slots of `dur` nanoseconds, of statistical kind when
/// `mmm`, whose window and first and last updates are all at `anchor` (none yet when
/// `anchor` is `None`): the state `Buckets::new` gives, moved on once when anchored.
pub open spec fn fresh_buckets(b: Buckets, dur: int, n: int, mmm: bool, anchor: Option<i64>) -> bool {
    &&& b.bucket_duration == dur
    &&& b.num_buckets == n
    &&& b.is_mmm == mmm
    &&& b.bucket_time == anchor
    &&& b.earliest_time == anchor
    &&& b.latest_time == anchor
    &&& b.values_total == 0
    &&& b.values_min == u64::MAX
    &&& b.values_max == 0
    &&& mmm ==> b.stats@ == Seq::new(n as nat, |i: int| fresh_slot()) && b.buckets@.len() == 0
    &&& !mmm ==> b.buckets@ == Seq::new(n as nat, |i: int| 0u64) && b.stats@.len() == 0
}

/// Moving a fresh, unanchored bucket set on to `t` anchors it at `t` and changes nothing
/// else.
pub proof fn lemma_fresh_anchored(b0: Buckets, b1: Buckets, dur: int, n: int, mmm: bool, t: i64, cumulative: bool)
    requires
        fresh_buckets(b0, dur, n, mmm, None),
        Buckets::advanced(b0, b1, t, cumulative),
    ensures
        fresh_buckets(b1, dur, n, mmm, Some(t)),
{
}

/// Sequence of sliding windows of one granularity: a value ring (cumulative or
/// instant metrics) or a ring of slot statistics (statistical metrics).
pub struct Buckets {
    /// Start time of the newest slot, in nanoseconds since the epoch.
    pub bucket_time: Option<i64>,
    /// Earliest time handed to `update_current_time`.
    pub earliest_time: Option<i64>,
    /// Latest time handed to `update_current_time`.
    pub latest_time: Option<i64>,
    pub bucket_duration: i64,
    pub num_buckets: usize,
    /// Running total of the value ring (cumulative use).
    pub values_total: u128,
    pub values_min: u64,
    pub values_max: u64,
    pub is_mmm: bool,
    /// Value ring, oldest slot first (value mode only).
    pub buckets: Vec<u64>,
    /// Statistics ring, oldest slot first (statistical mode only).
    pub stats: Vec<SlotStat>,
}

impl Buckets {
    /// Shape invariant: one ring of `num_buckets` slots of positive duration, and every
    /// statistics slot consistent.
    pub open spec fn wf(&self) -> bool {
        &&& self.bucket_duration > 0
        &&& self.num_buckets >= 1
        &&& if self.is_mmm {
            &&& self.stats@.len() == self.num_buckets
            &&& self.buckets@.len() == 0
        } else {
            &&& self.buckets@.len() == self.num_buckets
            &&& self.stats@.len() == 0
        }
        &&& forall|i: int| 0 <= i < self.stats@.len() ==> slot_consistent(#[trigger] self.stats@[i])
    }

    /// The running total equals the sum of the value ring.
    pub open spec fn total_tracks_ring(&self) -> bool {
        self.values_total == ring_sum(self.buckets@)
    }

    /// What `bucket_update_value(index, value, cumulative)` makes of `old`.
    pub open spec fn recorded(old: Buckets, new: Buckets, index: int, value: u64, cumulative: bool) -> bool {
        &&& new.bucket_time == old.bucket_time
        &&& new.earliest_time == old.earliest_time
        &&& new.latest_time == old.latest_time
        &&& new.bucket_duration == old.bucket_duration
        &&& new.num_buckets == old.num_buckets
        &&& new.is_mmm == old.is_mmm
        &&& old.is_mmm ==> {
            &&& new.stats@ == old.stats@.update(index, slot_with_sample(old.stats@[index], value))
            &&& new.buckets@ == old.buckets@
            &&& new.values_total == old.values_total
            &&& new.values_min == if value < old.values_min { value } else { old.values_min }
            &&& new.values_max == if value > old.values_max { value } else { old.values_max }
        }
        &&& !old.is_mmm ==> {
            let slot = if cumulative { sat_add(old.buckets@[index], value) } else { value };
            &&& new.buckets@ == old.buckets@.update(index, slot)
            &&& new.stats@ == old.stats@
            &&& new.values_min == if slot < old.values_min { slot } else { old.values_min }
            &&& new.values_max == if slot > old.values_max { slot } else { old.values_max }
            &&& (!cumulative ==> new.values_total == old.values_total)
            &&& (cumulative ==> new.values_total == sat_u128(old.values_total + slot - old.buckets@[index]))
            &&& (cumulative && old.total_tracks_ring() ==> new.total_tracks_ring())
        }
    }

    /// What `update_current_time(t, cumulative)` makes of `old`.
    pub open spec fn advanced(old: Buckets, new: Buckets, t: i64, cumulative: bool) -> bool {
        &&& new.bucket_duration == old.bucket_duration
        &&& new.num_buckets == old.num_buckets
        &&& new.is_mmm == old.is_mmm
        &&& new.values_min == old.values_min
        &&& new.values_max == old.values_max
        &&& match old.bucket_time {
            None => {
                &&& new.bucket_time == Some(t)
                &&& new.buckets@ == old.buckets@
                &&& new.stats@ == old.stats@
                &&& new.values_total == old.values_total
            },
            Some(a) => {
                let k = crossings(a as int, old.bucket_duration as int, t as int);
                &&& new.bucket_time == Some((a + k * old.bucket_duration) as i64)
                &&& new.buckets@ == shift_ring(old.buckets@, k, 0u64)
                &&& new.stats@ == shift_ring(old.stats@, k, fresh_slot())
                &&& (!(cumulative && !old.is_mmm) ==> new.values_total == old.values_total)
                &&& (cumulative && !old.is_mmm ==> new.values_total == evict_total(old.values_total, old.buckets@, k))
                &&& (cumulative && old.total_tracks_ring() ==> new.total_tracks_ring())
            },
        }
        &&& new.earliest_time == match old.earliest_time {
            Some(e) => if t < e { Some(t) } else { Some(e) },
            None => Some(t),
        }
        &&& new.latest_time == match old.latest_time {
            Some(l) => if t > l { Some(t) } else { Some(l) },
            None => Some(t),
        }
    }

    /// Whether the slot starting at `anchor` has ended before `now`.
    fn boundary_passed(anchor: i64, dur: i64, now: i64) -> (r: bool)
        requires
            dur > 0,
        ensures
            r == (anchor + dur < now),
    {
        match anchor.checked_add(dur) {
            Some(end) => end < now,
            None => false,
        }
    }

    /// Moves the window on to `new_time`: opens one empty slot for each slot boundary passed
    /// since the anchor, evicting the oldest slot so that the ring keeps its length, and
    /// (cumulative use) takes each evicted value off the running total. The first call only
    /// anchors the window.
    pub fn update_current_time(&mut self, new_time: i64, is_cumulative: bool)
        requires
            old(self).wf(),
        ensures
            final(self).wf(),
            Buckets::advanced(*old(self), *final(self), new_time, is_cumulative),
    {
        let dur = self.bucket_duration;
        match self.bucket_time {
            Some(start) => {
                let ghost k_total = crossings(start as int, dur as int, new_time as int);
                let ghost tracking = is_cumulative && !self.is_mmm && self.total_tracks_ring();
                let ghost old_buckets = self.buckets@;
                let ghost old_stats = self.stats@;
                let ghost old_total = self.values_total;
                let ghost mut k: nat = 0;
                let mut bucket_time = start;
                proof {
                    assert(start + 0 * dur == start);
                }
                while Self::boundary_passed(bucket_time, dur, new_time)
                    invariant
                        self.wf(),
                        self.bucket_duration == dur,
                        self.num_buckets == old(self).num_buckets,
                        self.is_mmm == old(self).is_mmm,
                        self.values_min == old(self).values_min,
                        self.values_max == old(self).values_max,
                        self.earliest_time == old(self).earliest_time,
                        self.latest_time == old(self).latest_time,
                        bucket_time as int == start + k * dur,
                        k + crossings(bucket_time as int, dur as int, new_time as int) == k_total,
                        self.buckets@ == shift_ring(old_buckets, k, 0u64),
                        self.stats@ == shift_ring(old_stats, k, fresh_slot()),
                        tracking ==> is_cumulative && !self.is_mmm && self.total_tracks_ring(),
                        is_cumulative && !self.is_mmm ==> self.values_total == evict_total(old_total, old_buckets, k),
                        !(is_cumulative && !self.is_mmm) ==> self.values_total == old_total,
                    decreases new_time - bucket_time,
                {
                    proof {
                        assert(start + (k + 1) * dur == start + k * dur + dur) by (nonlinear_arith);
                    }
                    bucket_time = bucket_time + dur;
                    if self.is_mmm {
                        let ghost before = self.stats@;
                        self.stats.push(SlotStat { count: 0, total: 0, min: 0, mean: 0, max: 0, needs_init: true });
                        self.stats.remove(0);
                        proof {
                            assert(self.stats@ =~= step_ring(before, fresh_slot()));
                            assert forall|i: int| 0 <= i < self.stats@.len() implies slot_consistent(#[trigger] self.stats@[i]) by {
                                if i + 1 < before.len() {
                                    assert(self.stats@[i] == before[i + 1]);
                                }
                            }
                        }
                    } else {
                        let ghost before = self.buckets@;
                        let ghost total_before = self.values_total;
                        proof {
                            lemma_ring_sum_push(before, 0);
                            lemma_ring_sum_first(before.push(0));
                            lemma_ring_sum_bound(before.push(0).drop_first());
                            assert(before.push(0)[0] == before[0]);
                        }
                        self.buckets.push(0);
                        if is_cumulative {
                            let evicted = self.buckets[0] as u128;
                            if self.values_total >= evicted {
                                self.values_total = self.values_total - evicted;
                            } else {
                                self.values_total = 0;
                            }
                        }
                        self.buckets.remove(0);
                        proof {
                            if is_cumulative {
                                assert(evict_total(old_total, old_buckets, k + 1) == (if total_before >= before.push(0u64)[0] {
                                    (total_before - before.push(0u64)[0]) as u128
                                } else {
                                    0u128
                                }));
                            }
                            assert(self.buckets@ =~= step_ring(before, 0u64));
                            assert(before.push(0u64).drop_first() =~= self.buckets@);
                            if tracking {
                                assert(total_before == ring_sum(before));
                                assert(ring_sum(before.push(0u64).drop_first()) == ring_sum(self.buckets@));
                                assert(self.values_total == ring_sum(self.buckets@));
                            }
                        }
                    }
                    proof {
                        k = k + 1;
                    }
                }
                self.bucket_time = Some(bucket_time);
                proof {
                    assert(crossings(bucket_time as int, dur as int, new_time as int) == 0);
                }
            },
            None => {
                self.bucket_time = Some(new_time);
            },
        }
        match self.earliest_time {
            Some(e) => {
                if new_time < e {
                    self.earliest_time = Some(new_time);
                }
            },
            None => {
                self.earliest_time = Some(new_time);
            },
        }
        match self.latest_time {
            Some(l) => {
                if new_time > l {
                    self.latest_time = Some(new_time);
                }
            },
            None => {
                self.latest_time = Some(new_time);
            },
        }
    }

    /// Records `value` in slot `index` (0 is the oldest). Statistical: the slot's
    /// aggregates take the sample. Cumulative: the value is added to the slot (held at
    /// `u64::MAX`) and to the running total. Instant: the slot is set to the value.
    pub fn bucket_update_value(&mut self, index: usize, value: u64, is_cumulative: bool)
        requires
            old(self).wf(),
            index < old(self).num_buckets,
        ensures
            final(self).wf(),
            Buckets::recorded(*old(self), *final(self), index as int, value, is_cumulative),
    {
        if self.is_mmm {
            let updated = add_to_slot(self.stats[index], value);
            self.stats.set(index, updated);
            proof {
                assert forall|i: int| 0 <= i < self.stats@.len() implies slot_consistent(#[trigger] self.stats@[i]) by {
                    if i != index {
                        assert(self.stats@[i] == old(self).stats@[i]);
                    }
                }
            }
            if value < self.values_min {
                self.values_min = value;
            }
            if value > self.values_max {
                self.values_max = value;
            }
        } else {
            let slot = if is_cumulative {
                let old_slot = self.buckets[index];
                let new_slot = old_slot.saturating_add(value);
                proof {
                    lemma_ring_sum_update(self.buckets@, index as int, new_slot);
                    lemma_ring_sum_update(self.buckets@, index as int, new_slot);
                    lemma_ring_sum_bound(self.buckets@.update(index as int, new_slot));
                    lemma_usize_bound_sum(self.buckets@.len() as int);
                }
                let delta = (new_slot - old_slot) as u128;
                if self.values_total <= u128::MAX - delta {
                    self.values_total = self.values_total + delta;
                } else {
                    self.values_total = u128::MAX;
                }
                new_slot
            } else {
                value
            };
            self.buckets.set(index, slot);
            if slot < self.values_min {
                self.values_min = slot;
            }
            if slot > self.values_max {
                self.values_max = slot;
            }
        }
    }

    /// The slot that a sample taken at `time` lands in, or `None` when it is too far behind
    /// the window (at least `num_buckets` slots before the newest slot's start).
    pub fn route_sample(&self, time: i64) -> (r: Option<usize>)
        requires
            self.wf(),
        ensures
            r matches Some(i) ==> i < self.num_buckets,
            as_int_index(r) == routed_slot(
                self.bucket_time,
                self.bucket_duration as int,
                self.num_buckets as int,
                time as int,
            ),
    {
        match self.bucket_time {
            Some(anchor) => {
                if time < anchor {
                    let diff = anchor as i128 - time as i128;
                    let behind = diff / (self.bucket_duration as i128);
                    if behind >= self.num_buckets as i128 {
                        None
                    } else {
                        Some(self.num_buckets - 1 - behind as usize)
                    }
                } else {
                    Some(self.num_buckets - 1)
                }
            },
            None => Some(self.num_buckets - 1),
        }
    }

    pub fn num_buckets(&self) -> (r: usize)
        ensures
            r == self.num_buckets,
    {
        self.num_buckets
    }

    /// The ring to display: the value ring, or for a statistical bucket set the ring of
    /// minima, means or maxima that `mmm_ui_mode` selects (means when none is given).
    pub fn buckets(&self, mmm_ui_mode: Option<MinMeanMax>) -> (r: Vec<u64>)
        requires
            self.wf(),
        ensures
            !self.is_mmm ==> r@ == self.buckets@,
            self.is_mmm ==> r@ == self.stats@.map_values(|s: SlotStat| stat_shown(s, mmm_ui_mode)),
    {
        if !self.is_mmm {
            return self.buckets.clone();
        }
        let mut out: Vec<u64> = Vec::new();
        let mut i: usize = 0;
        while i < self.stats.len()
            invariant
                i <= self.stats@.len(),
                out@ == self.stats@.subrange(0, i as int).map_values(|s: SlotStat| stat_shown(s, mmm_ui_mode)),
            decreases self.stats@.len() - i,
        {
            let st = self.stats[i];
            let v = match mmm_ui_mode {
                Some(MinMeanMax::Min) => st.min,
                Some(MinMeanMax::Max) => st.max,
                _ => st.mean,
            };
            out.push(v);
            i = i + 1;
            proof {
                assert(out@ =~= self.stats@.subrange(0, i as int).map_values(|s: SlotStat| stat_shown(s, mmm_ui_mode)));
            }
        }
        proof {
            assert(self.stats@.subrange(0, i as int) =~= self.stats@);
        }
        out
    }

    /// The span of time the history covers so far, in nanoseconds: the time between the
    /// earliest and latest updates when that is at least a second and less than the whole
    /// window, one slot when both are the same instant, and the whole window otherwise;
    /// `None` before the first update.
    pub fn duration_covered(&self) -> (r: Option<i128>)
        requires
            self.wf(),
        ensures
            r == covered_span(self.earliest_time, self.latest_time, self.bucket_duration as int, self.num_buckets as int),
    {
        proof {
            assert((self.bucket_duration as int) * (self.num_buckets as int) <= (i64::MAX as int) * (usize::MAX as int)) by (nonlinear_arith)
                requires
                    0 < self.bucket_duration <= i64::MAX,
                    0 < self.num_buckets <= usize::MAX,
            ;
        }
        let total = self.bucket_duration as i128 * self.num_buckets as i128;
        match (self.earliest_time, self.latest_time) {
            (Some(e), Some(l)) => {
                let span = l as i128 - e as i128;
                if span < total && span >= 1_000_000_000 {
                    Some(span)
                } else if span == 0 {
                    Some(self.bucket_duration as i128)
                } else {
                    Some(total)
                }
            },
            _ => None,
        }
    }
    /// A bucket set of `num_buckets` empty slots of `bucket_duration` nanoseconds each.
    pub fn new(bucket_duration: i64, num_buckets: usize, is_mmm: bool) -> (r: Buckets)
        requires
            bucket_duration > 0,
            num_buckets >= 1,
        ensures
            r.wf(),
            r.bucket_time is None,
            r.earliest_time is None,
            r.latest_time is None,
            r.bucket_duration == bucket_duration,
            r.num_buckets == num_buckets,
            r.is_mmm == is_mmm,
            r.values_total == 0,
            r.values_min == u64::MAX,
            r.values_max == 0,
            is_mmm ==> r.stats@ == Seq::new(num_buckets as nat, |i: int| fresh_slot()),
            !is_mmm ==> r.buckets@ == Seq::new(num_buckets as nat, |i: int| 0u64),
            r.total_tracks_ring(),
            fresh_buckets(r, bucket_duration as int, num_buckets as int, is_mmm, None),
    {
        let mut buckets: Vec<u64> = Vec::new();
        let mut stats: Vec<SlotStat> = Vec::new();
        let mut i: usize = 0;
        while i < num_buckets
            invariant
                i <= num_buckets,
                is_mmm ==> stats@ == Seq::new(i as nat, |j: int| fresh_slot()),
                is_mmm ==> buckets@.len() == 0,
                !is_mmm ==> buckets@ == Seq::new(i as nat, |j: int| 0u64),
                !is_mmm ==> stats@.len() == 0,
                ring_sum(buckets@) == 0,
            decreases num_buckets - i,
        {
            if is_mmm {
                stats.push(SlotStat { count: 0, total: 0, min: 0, mean: 0, max: 0, needs_init: true });
            } else {
                proof {
                    lemma_ring_sum_push(buckets@, 0);
                }
                buckets.push(0);
            }
            i = i + 1;
            proof {
                if is_mmm {
                    assert(stats@ =~= Seq::new(i as nat, |j: int| fresh_slot()));
                } else {
                    assert(buckets@ =~= Seq::new(i as nat, |j: int| 0u64));
                }
            }
        }
        Buckets {
            bucket_time: None,
            earliest_time: None,
            latest_time: None,
            bucket_duration,
            num_buckets,
            values_total: 0,
            values_min: u64::MAX,
            values_max: 0,
            is_mmm,
            buckets,
            stats,
        }
    }
}


/// Moving an anchored window on to `t1` and then on to a later `t2` gives the window that
/// moving it on to `t2` at once gives: no slot boundary is skipped or passed twice, and a
/// repeated call with the same time changes nothing.
pub proof fn lemma_advance_in_steps(
    b0: Buckets,
    b1: Buckets,
    b2: Buckets,
    direct: Buckets,
    t1: i64,
    t2: i64,
    cumulative: bool,
)
    requires
        b0.wf(),
        b0.bucket_time is Some,
        t1 <= t2,
        Buckets::advanced(b0, b1, t1, cumulative),
        Buckets::advanced(b1, b2, t2, cumulative),
        Buckets::advanced(b0, direct, t2, cumulative),
    ensures
        b2.bucket_time == direct.bucket_time,
        b2.buckets@ == direct.buckets@,
        b2.stats@ == direct.stats@,
        (!(cumulative && !b0.is_mmm) || b0.total_tracks_ring()) ==> b2.values_total == direct.values_total,
{
    let a = b0.bucket_time->0;
    let dur = b0.bucket_duration as int;
    let k1 = crossings(a as int, dur, t1 as int);
    lemma_crossings_compose(a as int, dur, t1 as int, t2 as int);
    lemma_shift_add(b0.buckets@, k1, crossings(a + k1 * dur, dur, t2 as int), 0u64);
    lemma_shift_add(b0.stats@, k1, crossings(a + k1 * dur, dur, t2 as int), fresh_slot());
    lemma_crossings_end(a as int, dur, t1 as int);
    let k2 = crossings(a + k1 * dur, dur, t2 as int);
    assert(k1 * dur >= 0) by (nonlinear_arith)
        requires
            dur > 0,
            k1 >= 0,
    ;
    assert(b1.bucket_time->0 == a + k1 * dur);
    assert((k1 + k2) * dur == k1 * dur + k2 * dur) by (nonlinear_arith);
}

/// After `k` slot boundaries are passed, the newest `min(k, n)` slots of the ring are
/// fresh and the others hold the newest values of the old ring, in their order.
pub proof fn lemma_advance_shape(b0: Buckets, b1: Buckets, t: i64, cumulative: bool, i: int)
    requires
        b0.wf(),
        b0.bucket_time is Some,
        Buckets::advanced(b0, b1, t, cumulative),
        0 <= i < b0.num_buckets,
    ensures
        ({
            let k = crossings(b0.bucket_time->0 as int, b0.bucket_duration as int, t as int);
            &&& b1.buckets@.len() == b0.buckets@.len()
            &&& b1.stats@.len() == b0.stats@.len()
            &&& !b0.is_mmm ==> b1.buckets@[i] == if i + k < b0.num_buckets { b0.buckets@[i + k] } else { 0 }
            &&& b0.is_mmm ==> b1.stats@[i] == if i + k < b0.num_buckets { b0.stats@[i + k] } else { fresh_slot() }
        }),
{
    let k = crossings(b0.bucket_time->0 as int, b0.bucket_duration as int, t as int);
    lemma_shift_len(b0.buckets@, k, 0u64);
    lemma_shift_len(b0.stats@, k, fresh_slot());
    if b0.is_mmm {
        lemma_shift_shape(b0.stats@, k, fresh_slot(), i);
    } else {
        lemma_shift_shape(b0.buckets@, k, 0u64, i);
    }
}

/// In a well-formed timeline, the set index of a name held at position `j` is `j`.
pub proof fn lemma_set_index_at(t: Timeline, j: int)
    requires
        t.wf(),
        0 <= j < t.bucket_names@.len(),
    ensures
        t.set_index(t.bucket_names@[j]@) == Some(j),
{
    let name = t.bucket_names@[j]@;
    assert(t.bucket_names@[j]@ == name);
    let c = choose|i: int| 0 <= i < t.bucket_names@.len() && (#[trigger] t.bucket_names@[i])@ == name;
    if c != j {
        if c < j {
            assert(t.bucket_names@[c]@ != t.bucket_names@[j]@);
        } else {
            assert(t.bucket_names@[j]@ != t.bucket_names@[c]@);
        }
    }
}

/// Display colour of a timeline.
#[derive(Clone, Copy, PartialEq, Eq, Structural, Debug)]
pub enum TimelineColour {
    LightCyan,
    LightBlue,
    Yellow,
    Green,
    Blue,
    Magenta,
    Red,
}

/// The histories of one metric, one bucket set per granularity, advanced together.
pub struct Timeline {
    pub name: String,
    pub units_text: String,
    pub is_mmm: bool,
    pub is_cumulative: bool,
    pub colour: TimelineColour,
    pub last_non_zero_value: u64,
    /// Granularity names, one per bucket set, distinct.
    pub bucket_names: Vec<String>,
    pub bucket_sets: Vec<Buckets>,
}

impl Timeline {
    /// Every bucket set well formed and of the timeline's kind, one distinct name for each,
    /// and the running totals of a cumulative value timeline equal to the sums of its rings.
    pub open spec fn wf(&self) -> bool {
        &&& self.bucket_names@.len() == self.bucket_sets@.len()
        &&& forall|i: int| 0 <= i < self.bucket_sets@.len() ==> {
            &&& (#[trigger] self.bucket_sets@[i]).wf()
            &&& self.bucket_sets@[i].is_mmm == self.is_mmm
            &&& (self.is_cumulative ==> self.bucket_sets@[i].total_tracks_ring())
        }
        &&& forall|i: int, j: int| 0 <= i < j < self.bucket_names@.len() ==>
            (#[trigger] self.bucket_names@[i])@ != (#[trigger] self.bucket_names@[j])@
    }

    /// Index of the bucket set named `name`.
    pub open spec fn set_index(&self, name: Seq<char>) -> Option<int> {
        if exists|i: int| 0 <= i < self.bucket_names@.len() && (#[trigger] self.bucket_names@[i])@ == name {
            Some(choose|i: int| 0 <= i < self.bucket_names@.len() && (#[trigger] self.bucket_names@[i])@ == name)
        } else {
            None
        }
    }

    pub fn new(name: String, units_text: String, is_mmm: bool, is_cumulative: bool, colour: TimelineColour) -> (r: Timeline)
        ensures
            r.wf(),
            r.name@ == name@,
            r.units_text@ == units_text@,
            r.is_mmm == is_mmm,
            r.is_cumulative == is_cumulative,
            r.colour == colour,
            r.last_non_zero_value == 0,
            r.bucket_sets@.len() == 0,
    {
        Timeline {
            name,
            units_text,
            is_mmm,
            is_cumulative,
            colour,
            last_non_zero_value: 0,
            bucket_names: Vec::new(),
            bucket_sets: Vec::new(),
        }
    }

    pub fn get_name(&self) -> (r: &String)
        ensures
            r@ == self.name@,
    {
        &self.name
    }

    /// Position of the bucket set named `name`.
    fn find_set(&self, name: &str) -> (r: Option<usize>)
        requires
            self.wf(),
        ensures
            as_int_index(r) == self.set_index(name@),
    {
        let key = name.to_owned();
        let mut i: usize = 0;
        while i < self.bucket_names.len()
            invariant
                self.wf(),
                key@ == name@,
                i <= self.bucket_names@.len(),
                forall|j: int| 0 <= j < i ==> (#[trigger] self.bucket_names@[j])@ != name@,
            decreases self.bucket_names@.len() - i,
        {
            if self.bucket_names[i].eq(&key) {
                proof {
                    let c = choose|j: int| 0 <= j < self.bucket_names@.len() && (#[trigger] self.bucket_names@[j])@ == name@;
                    if c != i as int {
                        if c < i {
                            assert(self.bucket_names@[c]@ != name@);
                        } else {
                            assert(self.bucket_names@[i as int]@ != self.bucket_names@[c]@);
                        }
                    }
                }
                return Some(i);
            }
            i = i + 1;
        }
        None
    }

    /// The bucket set named `timescale_name`.
    pub fn get_bucket_set(&self, timescale_name: &str) -> (r: Option<&Buckets>)
        requires
            self.wf(),
        ensures
            match self.set_index(timescale_name@) {
                Some(i) => r == Some(&self.bucket_sets@[i]),
                None => r is None,
            },
    {
        match self.find_set(timescale_name) {
            Some(i) => Some(&self.bucket_sets[i]),
            None => None,
        }
    }

    /// The display ring of the bucket set named `timescale_name` (see `Buckets::buckets`).
    pub fn get_buckets(&self, timescale_name: &str, mmm_ui_mode: Option<MinMeanMax>) -> (r: Option<Vec<u64>>)
        requires
            self.wf(),
        ensures
            match self.set_index(timescale_name@) {
                Some(i) => r matches Some(v) && {
                    let b = self.bucket_sets@[i];
                    &&& !b.is_mmm ==> v@ == b.buckets@
                    &&& b.is_mmm ==> v@ == b.stats@.map_values(|s: SlotStat| stat_shown(s, mmm_ui_mode))
                },
                None => r is None,
            },
    {
        match self.find_set(timescale_name) {
            Some(i) => Some(self.bucket_sets[i].buckets(mmm_ui_mode)),
            None => None,
        }
    }

    /// Moves every bucket set on to `new_time` (see `Buckets::update_current_time`).
    pub fn update_current_time(&mut self, new_time: i64)
        requires
            old(self).wf(),
        ensures
            final(self).wf(),
            final(self).same_settings(*old(self)),
            final(self).last_non_zero_value == old(self).last_non_zero_value,
            forall|i: int| 0 <= i < old(self).bucket_sets@.len() ==> Buckets::advanced(
                #[trigger] old(self).bucket_sets@[i],
                final(self).bucket_sets@[i],
                new_time,
                old(self).is_cumulative,
            ),
    {
        let n = self.bucket_sets.len();
        let mut i: usize = 0;
        while i < n
            invariant
                n == self.bucket_sets@.len(),
                i <= n,
                self.wf(),
                self.same_settings(*old(self)),
                self.last_non_zero_value == old(self).last_non_zero_value,
                forall|j: int| 0 <= j < i ==> Buckets::advanced(
                    #[trigger] old(self).bucket_sets@[j],
                    self.bucket_sets@[j],
                    new_time,
                    old(self).is_cumulative,
                ),
                forall|j: int| i <= j < n ==> #[trigger] self.bucket_sets@[j] == old(self).bucket_sets@[j],
            decreases n - i,
        {
            let cumulative = self.is_cumulative;
            let ghost before = self.bucket_sets@;
            self.bucket_sets[i].update_current_time(new_time, cumulative);
            proof {
                assert forall|j: int| 0 <= j < self.bucket_sets@.len() && j != i implies #[trigger] self.bucket_sets@[j] == before[j] by {}
            }
            i = i + 1;
        }
    }

    /// Records one occurrence at `time`.
    pub fn increment_value(&mut self, time: i64)
        requires
            old(self).wf(),
        ensures
            final(self).wf(),
            final(self).same_settings(*old(self)),
            final(self).sample_recorded(*old(self), time, 1),
    {
        self.update_value(time, 1);
    }

    /// Records a sample `value` taken at `time` in every bucket set whose window still
    /// reaches back to `time` (see `Buckets::route_sample`); a sample too old for a set is
    /// left out of that set only.
    pub fn update_value(&mut self, time: i64, value: u64)
        requires
            old(self).wf(),
        ensures
            final(self).wf(),
            final(self).same_settings(*old(self)),
            final(self).sample_recorded(*old(self), time, value),
    {
        if value > 0 {
            self.last_non_zero_value = value;
        }
        let n = self.bucket_sets.len();
        let mut i: usize = 0;
        while i < n
            invariant
                n == self.bucket_sets@.len(),
                i <= n,
                self.wf(),
                self.same_settings(*old(self)),
                self.last_non_zero_value == if value > 0 { value } else { old(self).last_non_zero_value },
                forall|j: int| 0 <= j < i ==> Timeline::set_took_sample(
                    #[trigger] old(self).bucket_sets@[j],
                    self.bucket_sets@[j],
                    time,
                    value,
                    old(self).is_cumulative,
                ),
                forall|j: int| i <= j < n ==> #[trigger] self.bucket_sets@[j] == old(self).bucket_sets@[j],
            decreases n - i,
        {
            let cumulative = self.is_cumulative;
            let ghost before = self.bucket_sets@;
            match self.bucket_sets[i].route_sample(time) {
                Some(index) => {
                    self.bucket_sets[i].bucket_update_value(index, value, cumulative);
                },
                None => {},
            }
            proof {
                assert forall|j: int| 0 <= j < self.bucket_sets@.len() && j != i implies #[trigger] self.bucket_sets@[j] == before[j] by {}
            }
            i = i + 1;
        }
    }

    /// Settings and set names unchanged.
    pub open spec fn same_settings(&self, old: Timeline) -> bool {
        &&& self.name == old.name
        &&& self.units_text == old.units_text
        &&& self.is_mmm == old.is_mmm
        &&& self.is_cumulative == old.is_cumulative
        &&& self.colour == old.colour
        &&& self.bucket_names == old.bucket_names
        &&& self.bucket_sets@.len() == old.bucket_sets@.len()
    }

    /// What recording a sample does to one bucket set.
    pub open spec fn set_took_sample(old: Buckets, new: Buckets, time: i64, value: u64, cumulative: bool) -> bool {
        match routed_slot(old.bucket_time, old.bucket_duration as int, old.num_buckets as int, time as int) {
            Some(k) => Buckets::recorded(old, new, k, value, cumulative),
            None => new == old,
        }
    }

    /// What `update_value(time, value)` makes of `old`.
    pub open spec fn sample_recorded(&self, old: Timeline, time: i64, value: u64) -> bool {
        &&& self.last_non_zero_value == if value > 0 { value } else { old.last_non_zero_value }
        &&& forall|i: int| 0 <= i < old.bucket_sets@.len() ==> Timeline::set_took_sample(
            #[trigger] old.bucket_sets@[i],
            self.bucket_sets@[i],
            time,
            value,
            old.is_cumulative,
        )
    }

    /// Adds a bucket set of `num_buckets` slots of `duration` nanoseconds under `name`,
    /// replacing any set of that name.
    pub fn add_bucket_set(&mut self, name: &str, duration: i64, num_buckets: usize)
        requires
            old(self).wf(),
            duration > 0,
            num_buckets >= 1,
        ensures
            final(self).wf(),
            final(self).name == old(self).name,
            final(self).is_mmm == old(self).is_mmm,
            final(self).is_cumulative == old(self).is_cumulative,
            final(self).last_non_zero_value == old(self).last_non_zero_value,
            ({
                let b = final(self).bucket_sets@[final(self).set_index(name@)->0];
                &&& final(self).set_index(name@) is Some
                &&& fresh_buckets(b, duration as int, num_buckets as int, old(self).is_mmm, None)
            }),
            forall|other: Seq<char>| other != name@ ==> #[trigger] final(self).set_index(other) == old(self).set_index(other)
                && (old(self).set_index(other) matches Some(k) ==> final(self).bucket_sets@[k] == old(self).bucket_sets@[k]),
    {
        let b = Buckets::new(duration, num_buckets, self.is_mmm);
        match self.find_set(name) {
            Some(i) => {
                self.bucket_sets.set(i, b);
                proof {
                    assert(self.bucket_names@ == old(self).bucket_names@);
                    assert forall|j: int| 0 <= j < self.bucket_sets@.len() implies {
                        &&& (#[trigger] self.bucket_sets@[j]).wf()
                        &&& self.bucket_sets@[j].is_mmm == self.is_mmm
                        &&& (self.is_cumulative ==> self.bucket_sets@[j].total_tracks_ring())
                    } by {
                        if j != i {
                            assert(self.bucket_sets@[j] == old(self).bucket_sets@[j]);
                        }
                    }
                    assert(self.bucket_names@[i as int]@ == name@);
                    assert forall|other: Seq<char>| other != name@ implies #[trigger] self.set_index(other) == old(self).set_index(other)
                        && (old(self).set_index(other) matches Some(k) ==> self.bucket_sets@[k] == old(self).bucket_sets@[k]) by {
                        if old(self).set_index(other) is Some {
                            let k = old(self).set_index(other)->0;
                            assert(self.bucket_names@[k]@ == other);
                        }
                    }
                }
            },
            None => {
                let ghost n = self.bucket_names@.len();
                self.bucket_names.push(name.to_owned());
                self.bucket_sets.push(b);
                proof {
                    assert forall|j: int| 0 <= j < self.bucket_sets@.len() implies {
                        &&& (#[trigger] self.bucket_sets@[j]).wf()
                        &&& self.bucket_sets@[j].is_mmm == self.is_mmm
                        &&& (self.is_cumulative ==> self.bucket_sets@[j].total_tracks_ring())
                    } by {
                        if j < n {
                            assert(self.bucket_sets@[j] == old(self).bucket_sets@[j]);
                        }
                    }
                    assert forall|x: int, y: int| 0 <= x < y < self.bucket_names@.len() implies
                        (#[trigger] self.bucket_names@[x])@ != (#[trigger] self.bucket_names@[y])@ by {
                        if y == n {
                            assert(self.bucket_names@[x] == old(self).bucket_names@[x]);
                        } else {
                            assert(self.bucket_names@[x] == old(self).bucket_names@[x]);
                            assert(self.bucket_names@[y] == old(self).bucket_names@[y]);
                        }
                    }
                    assert(self.bucket_names@[n as int]@ == name@);
                    assert(self.set_index(name@) == Some(n as int)) by {
                        let c = choose|j: int| 0 <= j < self.bucket_names@.len() && (#[trigger] self.bucket_names@[j])@ == name@;
                        if c != n {
                            assert(self.bucket_names@[c] == old(self).bucket_names@[c]);
                        }
                    }
                    assert forall|other: Seq<char>| other != name@ implies #[trigger] self.set_index(other) == old(self).set_index(other)
                        && (old(self).set_index(other) matches Some(k) ==> self.bucket_sets@[k] == old(self).bucket_sets@[k]) by {
                        if old(self).set_index(other) is Some {
                            let k = old(self).set_index(other)->0;
                            assert(self.bucket_names@[k] == old(self).bucket_names@[k]);
                        }
                        if self.set_index(other) is Some {
                            let k = self.set_index(other)->0;
                            if k < n {
                                assert(self.bucket_names@[k] == old(self).bucket_names@[k]);
                            }
                        }
                    }
                }
            },
        }
    }
}

} // verus!
