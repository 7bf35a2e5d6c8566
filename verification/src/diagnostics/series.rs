//! A histogram of nanosecond samples whose quantiles are intervals.
use vstd::prelude::*;

verus! {

/// How many bins a series allocates. Samples only ever reach the first
/// [`USED_BINS`] of them.
pub const BINS: usize = 2049;

pub const USED_BINS: usize = 1920;

/// The bin of a sample: exact up to 63, then 32 bins for each doubling.
pub open spec fn bin_of(ns: nat) -> nat
    decreases ns,
{
    if ns < 64 {
        ns
    } else {
        32 + bin_of(ns / 2)
    }
}

/// The least sample that falls into bin `i`.
pub open spec fn bin_low(i: nat) -> nat
    decreases i,
{
    if i < 64 {
        i
    } else {
        2 * bin_low((i - 32) as nat)
    }
}

/// The greatest sample that falls into bin `i`.
pub open spec fn bin_high(i: nat) -> nat
    decreases i,
{
    if i < 64 {
        i
    } else {
        2 * bin_high((i - 32) as nat) + 1
    }
}

/// The sum of the first `k` entries of `bins`.
pub open spec fn prefix_sum(bins: Seq<u64>, k: int) -> nat
    decreases k,
{
    if k <= 0 {
        0
    } else {
        prefix_sum(bins, k - 1) + bins[k - 1] as nat
    }
}

/// The rank of the `numerator / denominator` quantile among `n` samples, rounded up.
pub open spec fn rank_of(n: nat, numerator: nat, denominator: nat) -> nat
    recommends
        denominator > 0,
{
    ((n * numerator + denominator - 1) / denominator as int) as nat
}

/// The first bin, from `from` on, at which at least `rank` samples have been counted.
pub open spec fn rank_bin(bins: Seq<u64>, rank: nat, from: nat) -> nat
    decreases bins.len() - from,
{
    if from >= bins.len() || prefix_sum(bins, (from + 1) as int) >= rank {
        from
    } else {
        rank_bin(bins, rank, from + 1)
    }
}

pub open spec fn smaller(a: int, b: int) -> int {
    if a <= b {
        a
    } else {
        b
    }
}

/// How many of `samples` satisfy `chosen`.
pub open spec fn tally(samples: Seq<u64>, chosen: spec_fn(u64) -> bool) -> nat
    decreases samples.len(),
{
    if samples.len() == 0 {
        0
    } else {
        tally(samples.drop_last(), chosen) + if chosen(samples.last()) {
            1nat
        } else {
            0nat
        }
    }
}

pub open spec fn sample_sum(samples: Seq<u64>) -> nat
    decreases samples.len(),
{
    if samples.len() == 0 {
        0
    } else {
        sample_sum(samples.drop_last()) + samples.last() as nat
    }
}

/// A histogram of the whole `u64` range, with its count, sum and maximum.
pub struct Series {
    pub n: u64,
    pub invalid: u64,
    pub over_budget: u64,
    pub max_ns: u64,
    pub sum_ns: u128,
    pub bins: Vec<u64>,
}

/// What a [`Series`] holds.
#[verifier::ext_equal]
pub struct SeriesView {
    pub n: u64,
    pub invalid: u64,
    pub over_budget: u64,
    pub max_ns: u64,
    pub sum_ns: u128,
    pub bins: Seq<u64>,
}

impl View for Series {
    type V = SeriesView;

    open spec fn view(&self) -> SeriesView {
        SeriesView {
            n: self.n,
            invalid: self.invalid,
            over_budget: self.over_budget,
            max_ns: self.max_ns,
            sum_ns: self.sum_ns,
            bins: self.bins@,
        }
    }
}

impl SeriesView {
    /// The series without samples.
    pub open spec fn empty() -> SeriesView {
        SeriesView {
            n: 0,
            invalid: 0,
            over_budget: 0,
            max_ns: 0,
            sum_ns: 0,
            bins: Seq::new(BINS as nat, |i: int| 0u64),
        }
    }

    /// What every series keeps: each sample is in one bin that samples can reach,
    /// and the totals agree with the bins.
    pub open spec fn wf(self) -> bool {
        &&& self.bins.len() == BINS
        &&& forall|i: int| USED_BINS <= i < BINS ==> self.bins[i] == 0
        &&& prefix_sum(self.bins, BINS as int) == self.n
        &&& self.over_budget <= self.n
        &&& self.sum_ns <= self.n * u64::MAX
    }

    /// The series after one more sample.
    pub open spec fn push(self, ns: u64, budget: u64) -> SeriesView {
        let bin = bin_of(ns as nat) as int;
        SeriesView {
            n: (self.n + 1) as u64,
            invalid: self.invalid,
            over_budget: if ns > budget {
                (self.over_budget + 1) as u64
            } else {
                self.over_budget
            },
            max_ns: if self.max_ns < ns {
                ns
            } else {
                self.max_ns
            },
            sum_ns: (self.sum_ns + ns) as u128,
            bins: self.bins.update(bin, (self.bins[bin] + 1) as u64),
        }
    }

    /// The series after a sample whose times are out of order.
    pub open spec fn reject(self) -> SeriesView {
        SeriesView { invalid: (self.invalid + 1) as u64, ..self }
    }

    /// That the series was filled with exactly `samples`.
    pub open spec fn holds(self, samples: Seq<u64>) -> bool {
        &&& self.wf()
        &&& self.n == samples.len()
        &&& self.sum_ns == sample_sum(samples)
        &&& forall|j: int| 0 <= j < samples.len() ==> samples[j] <= self.max_ns
        &&& samples.len() == 0 ==> self.max_ns == 0
        &&& samples.len() > 0 ==> exists|j: int|
            0 <= j < samples.len() && samples[j] == self.max_ns
        &&& forall|i: int|
            0 <= i < BINS ==> #[trigger] self.bins[i] == tally(
                samples,
                |x: u64| bin_of(x as nat) == i,
            )
    }

    /// The interval of a quantile: the bin of its rank, clipped to the maximum.
    pub open spec fn quantile(self, numerator: u64, denominator: u64) -> Option<(int, int)> {
        let rank = rank_of(self.n as nat, numerator as nat, denominator as nat);
        if self.n == 0 || rank > self.n {
            None
        } else {
            let bin = rank_bin(self.bins, rank, 0);
            Some(
                (
                    smaller(bin_low(bin) as int, self.max_ns as int),
                    smaller(bin_high(bin) as int, self.max_ns as int),
                ),
            )
        }
    }
}

/// The bins below `count` that hold anything, with what they hold.
pub open spec fn occupied_bins(bins: Seq<u64>, count: nat) -> Seq<(usize, u64)>
    decreases count,
{
    if count == 0 {
        seq![]
    } else if bins[count - 1] != 0 {
        occupied_bins(bins, (count - 1) as nat).push(((count - 1) as usize, bins[count - 1]))
    } else {
        occupied_bins(bins, (count - 1) as nat)
    }
}

impl Series {
    /// The bins that hold anything, with what they hold.
    pub fn sparse_bins(&self) -> (occupied: Vec<(usize, u64)>)
        ensures
            occupied@ == occupied_bins(self@.bins, self@.bins.len()),
    {
        let mut occupied: Vec<(usize, u64)> = Vec::new();
        let mut i: usize = 0;
        while i < self.bins.len()
            invariant
                i <= self.bins@.len(),
                occupied@ == occupied_bins(self.bins@, i as nat),
            decreases self.bins@.len() - i,
        {
            if self.bins[i] != 0 {
                occupied.push((i, self.bins[i]));
            }
            i = i + 1;
        }
        occupied
    }

    pub fn push(&mut self, ns: u64, budget: u64)
        requires
            old(self)@.wf(),
            old(self).n < u64::MAX,
        ensures
            final(self)@.wf(),
            final(self)@ == old(self)@.push(ns, budget),
    {
        let index: usize = bin_index(ns);
        proof {
            prefix_sum_bounds(self.bins@, index as int, BINS as int);
            push_keeps_wf(self@, ns, budget);
        }
        self.bins[index] = self.bins[index] + 1;
        self.n = self.n + 1;
        self.sum_ns = self.sum_ns + ns as u128;
        if self.max_ns < ns {
            self.max_ns = ns;
        }
        if ns > budget {
            self.over_budget = self.over_budget + 1;
        }
    }

    /// A quantile is an interval, never a falsely precise clipped scalar.
    pub fn quantile(&self, numerator: u64, denominator: u64) -> (interval: Option<[u64; 2]>)
        requires
            self@.wf(),
            denominator > 0,
        ensures
            match (interval, self@.quantile(numerator, denominator)) {
                (Some(found), Some(bounds)) => found@[0] == bounds.0 && found@[1] == bounds.1,
                (None, None) => true,
                _ => false,
            },
    {
        if self.n == 0 {
            return None;
        }
        let rank: u128 = rank_exec(self.n, numerator, denominator);
        let mut count: u128 = 0;
        let mut i: usize = 0;
        proof {
            prefix_sum_tail(self.bins@, USED_BINS as int, BINS as int);
        }
        while i < USED_BINS
            invariant
                self@.wf(),
                self.n > 0,
                denominator > 0,
                i <= USED_BINS,
                count == prefix_sum(self.bins@, i as int),
                rank == rank_of(self.n as nat, numerator as nat, denominator as nat),
                i > 0 ==> count < rank,
                rank_bin(self.bins@, rank as nat, 0) == rank_bin(self.bins@, rank as nat, i as nat),
                prefix_sum(self.bins@, USED_BINS as int) == self.n,
            decreases USED_BINS - i,
        {
            proof {
                prefix_sum_monotone(self.bins@, i + 1, USED_BINS as int);
            }
            count = count + self.bins[i] as u128;
            if count >= rank {
                let bounds: (u64, u64) = bin_bounds(i);
                let low: u64 = if bounds.0 < self.max_ns { bounds.0 } else { self.max_ns };
                let high: u64 = if bounds.1 < self.max_ns { bounds.1 } else { self.max_ns };
                return Some([low, high]);
            }
            i = i + 1;
        }
        None
    }
}

impl Default for Series {
    fn default() -> (series: Series)
        ensures
            series@.wf(),
            series@ == SeriesView::empty(),
    {
        let bins: Vec<u64> = vec![0u64; BINS];
        proof {
            prefix_sum_zero(bins@, BINS as int);
            assert(bins@ =~= Seq::new(BINS as nat, |i: int| 0u64));
        }
        Series { n: 0, invalid: 0, over_budget: 0, max_ns: 0, sum_ns: 0, bins }
    }
}

fn rank_exec(n: u64, numerator: u64, denominator: u64) -> (rank: u128)
    requires
        denominator > 0,
    ensures
        rank == rank_of(n as nat, numerator as nat, denominator as nat),
{
    assert(n * numerator <= u64::MAX * u64::MAX) by (nonlinear_arith)
        requires
            n <= u64::MAX,
            numerator <= u64::MAX,
    ;
    assert(u64::MAX * u64::MAX + u64::MAX <= u128::MAX);
    let product: u128 = n as u128 * numerator as u128;
    let rank: u128 = (product + (denominator as u128 - 1)) / denominator as u128;
    assert(product == n * numerator) by (nonlinear_arith)
        requires
            product == n as u128 * numerator as u128,
    ;
    rank
}

fn bin_index(ns: u64) -> (index: usize)
    ensures
        index == bin_of(ns as nat),
        index < USED_BINS,
{
    let mut rest: u64 = ns;
    let mut base: usize = 0;
    proof {
        bin_in_use(ns);
    }
    while rest >= 64
        invariant
            bin_of(ns as nat) == base + bin_of(rest as nat),
            bin_of(ns as nat) < USED_BINS,
        decreases rest,
    {
        rest = rest / 2;
        base = base + 32;
    }
    base + rest as usize
}

fn bin_bounds(i: usize) -> (bounds: (u64, u64))
    requires
        i < USED_BINS,
    ensures
        bounds.0 == bin_low(i as nat),
        bounds.1 == bin_high(i as nat),
{
    if i < 64 {
        return (i as u64, i as u64);
    }
    let mut at: usize = 32 + i % 32;
    let mut low: u64 = at as u64;
    let mut high: u64 = at as u64;
    while at < i
        invariant
            32 <= at <= i < USED_BINS,
            at % 32 == i % 32,
            low == bin_low(at as nat),
            high == bin_high(at as nat),
            low <= high,
        decreases i - at,
    {
        proof {
            bin_high_limit();
            bin_high_monotone((at + 32) as nat, 1919);
            bin_low_below_high((at + 32) as nat);
        }
        at = at + 32;
        low = 2 * low;
        high = 2 * high + 1;
    }
    (low, high)
}

proof fn bin_low_below_high(i: nat)
    ensures
        bin_low(i) <= bin_high(i),
    decreases i,
{
    if i >= 64 {
        bin_low_below_high((i - 32) as nat);
    }
}

proof fn bin_high_monotone(i: nat, j: nat)
    requires
        i <= j,
    ensures
        bin_high(i) <= bin_high(j),
    decreases j,
{
    if j >= 64 {
        if i >= 64 {
            bin_high_monotone((i - 32) as nat, (j - 32) as nat);
        } else if i < 32 {
            bin_high_monotone(i, (j - 32) as nat);
        } else {
            bin_high_monotone((i - 32) as nat, (j - 32) as nat);
            bin_high_monotone(32, (j - 32) as nat);
        }
    }
}

proof fn bin_high_limit()
    ensures
        bin_high(1919) == u64::MAX,
{
    reveal_with_fuel(bin_high, 60);
}

/// Every sample lies in its bin.
pub proof fn bin_of_encloses(ns: nat)
    ensures
        bin_low(bin_of(ns)) <= ns <= bin_high(bin_of(ns)),
    decreases ns,
{
    if ns >= 64 {
        bin_of_encloses(ns / 2);
        bin_of_at_least_32(ns / 2);
    }
}

proof fn bin_of_at_least_32(ns: nat)
    requires
        ns >= 32,
    ensures
        bin_of(ns) >= 32,
    decreases ns,
{
    if ns >= 64 {
        bin_of_at_least_32(ns / 2);
    }
}

/// Bins are ordered as their samples are.
pub proof fn bin_of_monotone(a: nat, b: nat)
    requires
        a <= b,
    ensures
        bin_of(a) <= bin_of(b),
    decreases b,
{
    if b >= 64 {
        if a >= 64 {
            bin_of_monotone(a / 2, b / 2);
        } else {
            bin_of_at_least_32(b / 2);
        }
    }
}

proof fn bin_of_high(i: nat)
    ensures
        bin_of(bin_high(i)) == i,
        bin_of(bin_low(i)) == i,
        i >= 32 ==> bin_high(i) >= 32 && bin_low(i) >= 32,
    decreases i,
{
    if i >= 64 {
        bin_of_high((i - 32) as nat);
    }
}

/// A bin is at most a 32nd of its samples wide, and below 64 it holds a single one.
pub proof fn bin_is_narrow(i: nat)
    ensures
        i < 64 ==> bin_low(i) == i && bin_high(i) == i,
        i >= 32 ==> 32 * (bin_high(i) + 1 - bin_low(i)) <= bin_low(i),
    decreases i,
{
    if i >= 64 {
        bin_is_narrow((i - 32) as nat);
    }
}

/// Samples never reach the unused bins.
pub proof fn bin_in_use(ns: u64)
    ensures
        bin_of(ns as nat) < USED_BINS,
{
    bin_high_limit();
    bin_of_monotone(ns as nat, u64::MAX as nat);
    bin_of_high(1919);
}

proof fn prefix_sum_monotone(bins: Seq<u64>, a: int, b: int)
    requires
        0 <= a <= b,
    ensures
        prefix_sum(bins, a) <= prefix_sum(bins, b),
    decreases b - a,
{
    if a < b {
        prefix_sum_monotone(bins, a, b - 1);
    }
}

proof fn prefix_sum_bounds(bins: Seq<u64>, i: int, k: int)
    requires
        0 <= i < k <= bins.len(),
    ensures
        bins[i] <= prefix_sum(bins, k),
{
    prefix_sum_monotone(bins, i + 1, k);
}

proof fn prefix_sum_update(bins: Seq<u64>, i: int, value: u64, k: int)
    requires
        0 <= i < bins.len(),
        k <= bins.len(),
    ensures
        prefix_sum(bins.update(i, value), k) == prefix_sum(bins, k) + if i < k {
            value - bins[i]
        } else {
            0
        },
    decreases k,
{
    if k > 0 {
        prefix_sum_update(bins, i, value, k - 1);
    }
}

proof fn prefix_sum_tail(bins: Seq<u64>, a: int, b: int)
    requires
        0 <= a <= b <= bins.len(),
        forall|i: int| a <= i < b ==> bins[i] == 0,
    ensures
        prefix_sum(bins, a) == prefix_sum(bins, b),
    decreases b - a,
{
    if a < b {
        prefix_sum_tail(bins, a, b - 1);
    }
}

proof fn prefix_sum_zero(bins: Seq<u64>, k: int)
    requires
        k <= bins.len(),
        forall|i: int| 0 <= i < k ==> bins[i] == 0,
    ensures
        prefix_sum(bins, k) == 0,
    decreases k,
{
    if k > 0 {
        prefix_sum_zero(bins, k - 1);
    }
}

proof fn tally_split(samples: Seq<u64>, k: int)
    ensures
        tally(samples, |x: u64| bin_of(x as nat) < k + 1) == tally(
            samples,
            |x: u64| bin_of(x as nat) < k,
        ) + tally(samples, |x: u64| bin_of(x as nat) == k),
    decreases samples.len(),
{
    if samples.len() > 0 {
        tally_split(samples.drop_last(), k);
    }
}

proof fn tally_none(samples: Seq<u64>, chosen: spec_fn(u64) -> bool)
    requires
        forall|x: u64| !#[trigger] chosen(x),
    ensures
        tally(samples, chosen) == 0,
    decreases samples.len(),
{
    if samples.len() > 0 {
        tally_none(samples.drop_last(), chosen);
    }
}

/// One choice covers another, as far as the samples go.
proof fn tally_covers(
    samples: Seq<u64>,
    narrow: spec_fn(u64) -> bool,
    wide: spec_fn(u64) -> bool,
)
    requires
        forall|j: int| 0 <= j < samples.len() && narrow(#[trigger] samples[j]) ==> wide(samples[j]),
    ensures
        tally(samples, narrow) <= tally(samples, wide),
    decreases samples.len(),
{
    if samples.len() > 0 {
        let shorter = samples.drop_last();
        assert forall|j: int| 0 <= j < shorter.len() && narrow(#[trigger] shorter[j]) implies wide(
            shorter[j],
        ) by {
            assert(samples[j] == shorter[j]);
        }
        assert(samples.last() == samples[samples.len() - 1]);
        tally_covers(shorter, narrow, wide);
    }
}

proof fn prefix_sum_counts(series: SeriesView, samples: Seq<u64>, k: int)
    requires
        series.holds(samples),
        0 <= k <= BINS,
    ensures
        prefix_sum(series.bins, k) == tally(samples, |x: u64| bin_of(x as nat) < k),
    decreases k,
{
    if k == 0 {
        tally_none(samples, |x: u64| bin_of(x as nat) < 0);
    } else {
        prefix_sum_counts(series, samples, k - 1);
        tally_split(samples, k - 1);
        assert(series.bins[k - 1] == tally(samples, |x: u64| bin_of(x as nat) == k - 1));
    }
}

proof fn rank_bin_reaches(bins: Seq<u64>, rank: nat, from: nat)
    requires
        from < bins.len(),
        prefix_sum(bins, bins.len() as int) >= rank,
        from == 0 || prefix_sum(bins, from as int) < rank,
    ensures
        rank_bin(bins, rank, from) < bins.len(),
        prefix_sum(bins, (rank_bin(bins, rank, from) + 1) as int) >= rank,
        rank_bin(bins, rank, from) == 0 || prefix_sum(bins, rank_bin(bins, rank, from) as int)
            < rank,
    decreases bins.len() - from,
{
    if prefix_sum(bins, (from + 1) as int) < rank {
        rank_bin_reaches(bins, rank, from + 1);
    }
}

/// A push keeps what every series keeps.
pub proof fn push_keeps_wf(before: SeriesView, ns: u64, budget: u64)
    requires
        before.wf(),
        before.n < u64::MAX,
    ensures
        before.push(ns, budget).wf(),
{
    let bin = bin_of(ns as nat) as int;
    bin_in_use(ns);
    prefix_sum_bounds(before.bins, bin, BINS as int);
    prefix_sum_update(before.bins, bin, (before.bins[bin] + 1) as u64, BINS as int);
}

/// A push adds exactly its sample to what the series holds.
pub proof fn push_holds(before: SeriesView, samples: Seq<u64>, ns: u64, budget: u64)
    requires
        before.holds(samples),
        before.n < u64::MAX,
    ensures
        before.push(ns, budget).holds(samples.push(ns)),
{
    let after = before.push(ns, budget);
    push_keeps_wf(before, ns, budget);
    let more = samples.push(ns);
    assert(more.drop_last() =~= samples);
    bin_in_use(ns);
    assert forall|i: int| 0 <= i < BINS implies #[trigger] after.bins[i] == tally(
        more,
        |x: u64| bin_of(x as nat) == i,
    ) by {
        assert(before.bins[i] == tally(samples, |x: u64| bin_of(x as nat) == i));
        prefix_sum_bounds(before.bins, i, BINS as int);
    }
    if samples.len() > 0 && before.max_ns >= ns {
        let j = choose|j: int| 0 <= j < samples.len() && samples[j] == before.max_ns;
        assert(more[j] == after.max_ns);
    } else {
        assert(more[samples.len() as int] == after.max_ns);
    }
}

/// The quantile's interval holds the sample of its rank: at least `rank` samples
/// are no greater than the upper end, and fewer than `rank` lie below the lower end.
pub proof fn quantile_encloses_rank(
    series: SeriesView,
    samples: Seq<u64>,
    numerator: u64,
    denominator: u64,
)
    requires
        series.holds(samples),
        samples.len() > 0,
        0 < numerator <= denominator,
    ensures
        ({
            let rank = rank_of(series.n as nat, numerator as nat, denominator as nat);
            let bounds = series.quantile(numerator, denominator);
            &&& 1 <= rank <= samples.len()
            &&& bounds matches Some((low, high)) && tally(samples, |x: u64| x <= high) >= rank
                && tally(samples, |x: u64| x < low) < rank
        }),
{
    let n = series.n as nat;
    let rank = rank_of(n, numerator as nat, denominator as nat);
    rank_in_range(n, numerator as nat, denominator as nat);
    let bin = rank_bin(series.bins, rank, 0);
    rank_bin_reaches(series.bins, rank, 0);
    prefix_sum_counts(series, samples, (bin + 1) as int);
    prefix_sum_counts(series, samples, bin as int);
    let high = smaller(bin_high(bin) as int, series.max_ns as int);
    let low = smaller(bin_low(bin) as int, series.max_ns as int);
    let within = |x: u64| x <= high;
    let below = |x: u64| x < low;
    assert forall|j: int|
        0 <= j < samples.len() && bin_of(#[trigger] samples[j] as nat) < bin + 1 implies within(
        samples[j],
    ) by {
        bin_of_encloses(samples[j] as nat);
        bin_high_monotone(bin_of(samples[j] as nat), bin);
    }
    tally_covers(samples, |x: u64| bin_of(x as nat) < bin + 1, within);
    assert forall|j: int| 0 <= j < samples.len() && below(#[trigger] samples[j]) implies bin_of(
        samples[j] as nat,
    ) < bin by {
        bin_of_monotone(samples[j] as nat, bin_low(bin));
        bin_of_high(bin);
        if bin_of(samples[j] as nat) == bin {
            bin_of_encloses(samples[j] as nat);
        }
    }
    tally_covers(samples, below, |x: u64| bin_of(x as nat) < bin);
}

/// The rank of a quantile is the least one that has the fraction of the samples at or below it.
pub proof fn rank_is_rounded_up(n: nat, numerator: nat, denominator: nat)
    requires
        0 < denominator,
    ensures
        ({
            let rank = rank_of(n, numerator, denominator);
            denominator * (rank - 1) < n * numerator <= denominator * rank
        }),
{
    let part = n * numerator;
    let top = part + denominator - 1;
    let d = denominator as int;
    assert(part >= 0) by (nonlinear_arith)
        requires
            part == n * numerator,
            n >= 0,
            numerator >= 0,
    ;
    let rank = top / d;
    assert(rank >= 0 && d * (rank - 1) < part && part <= d * rank) by (nonlinear_arith)
        requires
            rank == top / d,
            top == part + d - 1,
            part >= 0,
            d > 0,
    ;
}

/// The interval of a quantile is at most a 32nd of its lower end wide.
pub proof fn quantile_is_narrow(series: SeriesView, numerator: u64, denominator: u64)
    ensures
        series.quantile(numerator, denominator) matches Some((low, high)) ==> low <= high && 32 * (
        high - low) <= low,
{
    let rank = rank_of(series.n as nat, numerator as nat, denominator as nat);
    let bin = rank_bin(series.bins, rank, 0);
    bin_is_narrow(bin);
    bin_low_below_high(bin);
}

/// The samples over the budget are counted, and no others; a sample whose times are out of
/// order counts as invalid and is no sample.
pub proof fn slow_samples_are_counted(before: SeriesView, samples: Seq<u64>, ns: u64, budget: u64)
    requires
        before.over_budget == tally(samples, |x: u64| x > budget),
        before.n == samples.len() < u64::MAX,
        before.invalid < u64::MAX,
    ensures
        before.push(ns, budget).over_budget == tally(samples.push(ns), |x: u64| x > budget),
        before.push(ns, budget).invalid == before.invalid,
        before.reject().invalid == before.invalid + 1,
        before.reject().n == before.n,
        before.reject().over_budget == before.over_budget,
        before.reject().bins == before.bins,
{
    let slow = |x: u64| x > budget;
    tally_at_most(samples, slow);
    assert(samples.push(ns).drop_last() =~= samples);
}

proof fn tally_at_most(samples: Seq<u64>, chosen: spec_fn(u64) -> bool)
    ensures
        tally(samples, chosen) <= samples.len(),
    decreases samples.len(),
{
    if samples.len() > 0 {
        tally_at_most(samples.drop_last(), chosen);
    }
}

proof fn rank_in_range(n: nat, numerator: nat, denominator: nat)
    requires
        0 < numerator <= denominator,
        0 < n,
    ensures
        1 <= rank_of(n, numerator, denominator) <= n,
{
    let top = n * numerator + denominator - 1;
    assert(n * numerator >= 1) by (nonlinear_arith)
        requires
            n >= 1,
            numerator >= 1,
    ;
    assert(n * numerator <= n * denominator) by (nonlinear_arith)
        requires
            numerator <= denominator,
    ;
    assert(1 <= top / denominator as int) by (nonlinear_arith)
        requires
            top >= denominator,
            denominator > 0,
    ;
    assert(top / denominator as int <= n) by (nonlinear_arith)
        requires
            top < n * denominator + denominator,
            denominator > 0,
    ;
}

/// Every bin that holds samples is listed with their number, in order, and no other.
pub proof fn occupied_bins_are_listed(bins: Seq<u64>, count: nat, at: int)
    requires
        count <= bins.len() <= usize::MAX,
        0 <= at < count,
    ensures
        occupied_bins(bins, count).contains((at as usize, bins[at])) == (bins[at] > 0),
        forall|i: int|
            0 <= i < occupied_bins(bins, count).len() ==> {
                let listed = #[trigger] occupied_bins(bins, count)[i];
                listed.0 < count && listed.1 == bins[listed.0 as int] && listed.1 > 0
            },
        forall|i: int, j: int|
            0 <= i < j < occupied_bins(bins, count).len() ==> (#[trigger] occupied_bins(
                bins,
                count,
            )[i]).0 < (#[trigger] occupied_bins(bins, count)[j]).0,
    decreases count,
{
    let front = occupied_bins(bins, (count - 1) as nat);
    let all = occupied_bins(bins, count);
    if count > 1 {
        occupied_bins_are_listed(
            bins,
            (count - 1) as nat,
            if at < count - 1 {
                at
            } else {
                0
            },
        );
    } else {
        assert(front.len() == 0);
    }
    assert forall|i: int| 0 <= i < all.len() implies {
        let listed = #[trigger] all[i];
        listed.0 < count && listed.1 == bins[listed.0 as int] && listed.1 > 0
    } by {
        if i < front.len() {
            assert(all[i] == front[i]);
        }
    }
    assert forall|i: int, j: int| 0 <= i < j < all.len() implies (#[trigger] all[i]).0 < (
    #[trigger] all[j]).0 by {
        assert(all[i] == front[i]);
        if j < front.len() {
            assert(all[j] == front[j]);
        }
    }
    let wanted = (at as usize, bins[at]);
    if at < count - 1 && front.contains(wanted) {
        let k = choose|k: int| 0 <= k < front.len() && front[k] == wanted;
        assert(all[k] == wanted);
    }
    if at == count - 1 && bins[at] > 0 {
        assert(all.last() == wanted);
    }
}

} // verus!
