//! Statistics over finished segment runs. Times are milliseconds since the Unix epoch and
//! durations are milliseconds.
use crate::event::EventEnum;
use vstd::prelude::*;

verus! {

/// How long a margin, in milliseconds, counts as matching the best time.
pub const TIME_SKEW_MILLI: i64 = 38;

/// Division that rounds toward zero, as integer division does in Rust.
pub open spec fn trunc_div(a: int, b: int) -> int {
    if a >= 0 {
        a / b
    } else {
        -((-a) / b)
    }
}

pub open spec fn fits_i64(x: int) -> bool {
    i64::MIN <= x <= i64::MAX
}

pub open spec fn sum(s: Seq<int>) -> int
    decreases s.len(),
{
    if s.len() == 0 {
        0
    } else {
        sum(s.drop_last()) + s.last()
    }
}

/// Every partial sum, adding from the front, fits in `i64`.
pub open spec fn sums_fit(s: Seq<int>) -> bool {
    forall|k: int| 0 <= k <= s.len() ==> #[trigger] fits_i64(sum(s.take(k)))
}

/// The smallest element of a non-empty sequence.
pub open spec fn seq_min(s: Seq<int>) -> int
    decreases s.len(),
{
    if s.len() <= 1 {
        s[0]
    } else if s.last() < seq_min(s.drop_last()) {
        s.last()
    } else {
        seq_min(s.drop_last())
    }
}

/// The smallest element, if there is one.
pub open spec fn opt_min(s: Seq<int>) -> Option<int> {
    if s.len() == 0 {
        None
    } else {
        Some(seq_min(s))
    }
}

/// The times of the objectives of a run.
pub open spec fn times_of(run: Seq<(EventEnum, i64)>) -> Seq<i64> {
    Seq::new(run.len(), |i: int| run[i].1)
}

/// From the first objective to the last.
pub open spec fn span(times: Seq<i64>) -> int {
    times.last() - times[0]
}

/// The time taken by objective `idx`, from the one before it; none for the first objective or
/// past the end.
pub open spec fn objective_span(times: Seq<i64>, idx: int) -> Option<int> {
    if idx == 0 || idx >= times.len() {
        None
    } else {
        Some(times[idx] - times[idx - 1])
    }
}

/// The durations of the runs.
pub open spec fn spans(runs: Seq<Seq<i64>>) -> Seq<int> {
    Seq::new(runs.len(), |i: int| span(runs[i]))
}

/// The times that the runs that reach objective `idx` took for it, in run order.
pub open spec fn objective_spans(runs: Seq<Seq<i64>>, idx: int) -> Seq<int>
    decreases runs.len(),
{
    if runs.len() == 0 {
        Seq::empty()
    } else {
        match objective_span(runs.last(), idx) {
            Some(d) => objective_spans(runs.drop_last(), idx).push(d),
            None => objective_spans(runs.drop_last(), idx),
        }
    }
}

/// Every run has objectives and its duration fits in `i64`.
pub open spec fn runs_measurable(runs: Seq<Seq<i64>>) -> bool {
    forall|i: int| 0 <= i < runs.len() ==> #[trigger] runs[i].len() > 0 && fits_i64(span(runs[i]))
}

/// Every duration of objective `idx` fits in `i64`.
pub open spec fn objective_measurable(runs: Seq<Seq<i64>>, idx: int) -> bool {
    forall|i: int|
        0 <= i < runs.len() ==> (#[trigger] objective_span(runs[i], idx) matches Some(d) ==> fits_i64(d))
}

/// How a new time compares with the best one: worse by the given amount, within the allowed
/// margin (the margin is given), or better by the given amount.
pub enum TimeVerdict {
    Bad(i64),
    Within(i64),
    Best(i64),
}

/// Better than the best by more than the margin is a new best; within it, a match; otherwise
/// worse.
pub open spec fn spec_time_verdict(previous_best: int, new_time: int) -> TimeVerdict {
    if new_time < previous_best - TIME_SKEW_MILLI {
        TimeVerdict::Best((previous_best - new_time) as i64)
    } else if new_time < previous_best + TIME_SKEW_MILLI {
        TimeVerdict::Within(TIME_SKEW_MILLI)
    } else {
        TimeVerdict::Bad((new_time - previous_best) as i64)
    }
}

/// How a new time is judged against the best one: more than 38 ms faster is a new best, by
/// the difference; within 38 ms either way (the slower end excluded) counts as equal, with the
/// margin reported; anything else is slower, by the difference.
pub proof fn law_time_verdict(previous_best: int, new_time: int)
    ensures
        spec_time_verdict(previous_best, new_time) is Best <==> new_time < previous_best - 38,
        spec_time_verdict(previous_best, new_time) is Within <==> previous_best - 38 <= new_time
            < previous_best + 38,
        spec_time_verdict(previous_best, new_time) is Bad <==> previous_best + 38 <= new_time,
        spec_time_verdict(previous_best, new_time) matches TimeVerdict::Best(d) ==> d == (previous_best
            - new_time) as i64,
        spec_time_verdict(previous_best, new_time) matches TimeVerdict::Within(d) ==> d == 38,
        spec_time_verdict(previous_best, new_time) matches TimeVerdict::Bad(d) ==> d == (new_time
            - previous_best) as i64,
{
}

/// The margins around the best time, and the difference that is reported, fit in `i64`.
pub open spec fn verdict_defined(previous_best: int, new_time: int) -> bool {
    &&& fits_i64(previous_best - TIME_SKEW_MILLI)
    &&& fits_i64(previous_best + TIME_SKEW_MILLI)
    &&& fits_i64(previous_best - new_time)
    &&& fits_i64(new_time - previous_best)
}

fn time_verdict(previous_best: &i64, new_time: &i64) -> (v: TimeVerdict)
    requires
        verdict_defined(*previous_best as int, *new_time as int),
    ensures
        v == spec_time_verdict(*previous_best as int, *new_time as int),
{
    let time_skew = TIME_SKEW_MILLI;
    let previous_lo_skew = *previous_best - time_skew;
    let previous_hi_skew = *previous_best + time_skew;
    if *new_time < previous_lo_skew {
        TimeVerdict::Best(*previous_best - *new_time)
    } else if *new_time < previous_hi_skew {
        TimeVerdict::Within(time_skew)
    } else {
        TimeVerdict::Bad(*new_time - *previous_best)
    }
}

/// Durations within one run.
pub trait SingleRunStats {
    /// The times of the run's objectives.
    spec fn times(&self) -> Seq<i64>;

    fn to_duration(&self) -> i64
        requires
            self.times().len() > 0,
            fits_i64(span(self.times())),
    ;

    fn objective_duration(&self, objective_idx: usize) -> Option<i64>
        requires
            objective_span(self.times(), objective_idx as int) matches Some(d) ==> fits_i64(d),
    ;
}

impl SingleRunStats for Vec<(EventEnum, i64)> {
    open spec fn times(&self) -> Seq<i64> {
        times_of(self@)
    }

    /// From the first objective to the last.
    fn to_duration(&self) -> (d: i64)
        ensures
            d == span(self.times()),
    {
        self[self.len() - 1].1 - self[0].1
    }

    /// The time taken by objective `objective_idx`, from the one before it; `None` for the
    /// first objective or past the end.
    fn objective_duration(&self, objective_idx: usize) -> (d: Option<i64>)
        ensures
            match objective_span(self.times(), objective_idx as int) {
                Some(x) => d == Some(x as i64),
                None => d is None,
            },
    {
        if objective_idx == 0 || objective_idx >= self.len() {
            return None;
        }
        Some(self[objective_idx].1 - self[objective_idx - 1].1)
    }
}

/// The times of the objectives of each run.
pub open spec fn runs_times(runs: Seq<Vec<(EventEnum, i64)>>) -> Seq<Seq<i64>> {
    Seq::new(runs.len(), |i: int| times_of(runs[i]@))
}

/// Statistics over several runs of one segment.
pub trait RunStatistics {
    /// The times of the objectives of each run.
    spec fn run_times(&self) -> Seq<Seq<i64>>;

    fn objective_time_min(&self, objective_idx: usize) -> Option<i64>
        requires
            objective_measurable(self.run_times(), objective_idx as int),
    ;

    fn run_time_min(&self) -> Option<i64>
        requires
            runs_measurable(self.run_times()),
    ;

    fn new_best_objective_time(&self, objective_idx: usize, new_time: &i64) -> bool
        requires
            objective_measurable(self.run_times(), objective_idx as int),
    ;

    fn avg(&self) -> i64
        requires
            0 < self.run_times().len() <= i64::MAX,
            runs_measurable(self.run_times()),
            sums_fit(spans(self.run_times())),
    ;

    fn rolling_avg(&self, n: usize) -> i64
        requires
            0 < n,
            0 < self.run_times().len() <= i64::MAX,
            runs_measurable(self.run_times().take(min_len(n, self.run_times().len()))),
            sums_fit(spans(self.run_times().take(min_len(n, self.run_times().len())))),
    ;

    fn objective_time_verdict(&self, objective_idx: usize, new_time: &i64) -> TimeVerdict
        requires
            objective_measurable(self.run_times(), objective_idx as int),
            opt_min(objective_spans(self.run_times(), objective_idx as int)) matches Some(best)
                ==> verdict_defined(best, *new_time as int),
    ;

    fn run_time_verdict(&self, new_time: &i64) -> TimeVerdict
        requires
            runs_measurable(self.run_times()),
            opt_min(spans(self.run_times())) matches Some(best) ==> verdict_defined(
                best,
                *new_time as int,
            ),
    ;
}

/// The machine value holds the mathematical one, or both are absent.
pub open spec fn same_value(m: Option<i64>, x: Option<int>) -> bool {
    match x {
        Some(v) => m is Some && m->0 == v,
        None => m is None,
    }
}

pub open spec fn min_len(n: usize, len: nat) -> int {
    if n < len {
        n as int
    } else {
        len as int
    }
}

/// Folds the times of the runs into their minimum, from the front.
fn min_option(acc: Option<i64>, x: i64) -> (r: Option<i64>)
    ensures
        r == Some(match acc {
            Some(a) => if x < a {
                x
            } else {
                a
            },
            None => x,
        }),
{
    match acc {
        Some(a) => if x < a {
            Some(x)
        } else {
            Some(a)
        },
        None => Some(x),
    }
}

proof fn lemma_opt_min_push(s: Seq<int>, x: int)
    ensures
        opt_min(s.push(x)) == Some(match opt_min(s) {
            Some(a) => if x < a {
                x
            } else {
                a
            },
            None => x,
        }),
{
    assert(s.push(x).drop_last() =~= s);
}

impl RunStatistics for Vec<Vec<(EventEnum, i64)>> {
    open spec fn run_times(&self) -> Seq<Seq<i64>> {
        runs_times(self@)
    }

    /// The shortest time taken for objective `objective_idx` among the runs that reach it.
    fn objective_time_min(&self, objective_idx: usize) -> (m: Option<i64>)
        ensures
            same_value(m, opt_min(objective_spans(self.run_times(), objective_idx as int))),
    {
        let ghost runs = self.run_times();
        let mut best: Option<i64> = None;
        let mut i: usize = 0;
        while i < self.len()
            invariant
                i <= self@.len(),
                runs == self.run_times(),
                objective_measurable(runs, objective_idx as int),
                same_value(best, opt_min(objective_spans(runs.take(i as int), objective_idx as int))),
            decreases self@.len() - i,
        {
            proof {
                assert(runs.take(i + 1).drop_last() =~= runs.take(i as int));
                assert(runs.take(i + 1).last() == runs[i as int]);
                assert(runs[i as int] == self@[i as int].times());
                let prev = objective_spans(runs.take(i as int), objective_idx as int);
                if let Some(d) = objective_span(runs[i as int], objective_idx as int) {
                    lemma_opt_min_push(prev, d);
                }
            }
            match self[i].objective_duration(objective_idx) {
                Some(d) => {
                    best = min_option(best, d);
                },
                None => {},
            }
            i = i + 1;
        }
        assert(runs.take(self@.len() as int) =~= runs);
        best
    }

    /// The shortest run.
    fn run_time_min(&self) -> (m: Option<i64>)
        ensures
            same_value(m, opt_min(spans(self.run_times()))),
    {
        let ghost runs = self.run_times();
        let mut best: Option<i64> = None;
        let mut i: usize = 0;
        while i < self.len()
            invariant
                i <= self@.len(),
                runs == self.run_times(),
                runs_measurable(runs),
                same_value(best, opt_min(spans(runs.take(i as int)))),
            decreases self@.len() - i,
        {
            proof {
                assert(spans(runs.take(i + 1)) =~= spans(runs.take(i as int)).push(span(runs[i as int])));
                assert(runs[i as int] == self@[i as int].times());
                lemma_opt_min_push(spans(runs.take(i as int)), span(runs[i as int]));
            }
            let d = self[i].to_duration();
            best = min_option(best, d);
            i = i + 1;
        }
        assert(runs.take(self@.len() as int) =~= runs);
        best
    }

    /// A new time for objective `objective_idx` is a best when it is shorter than every earlier
    /// one, or when no earlier run reached that objective.
    fn new_best_objective_time(&self, objective_idx: usize, new_time: &i64) -> (b: bool)
        ensures
            b == match opt_min(objective_spans(self.run_times(), objective_idx as int)) {
                Some(best) => *new_time < best,
                None => true,
            },
    {
        match self.objective_time_min(objective_idx) {
            Some(previous_best) => *new_time < previous_best,
            None => true,
        }
    }

    /// The mean duration of the runs, rounded toward zero.
    fn avg(&self) -> (a: i64)
        ensures
            a == trunc_div(sum(spans(self.run_times())), self@.len() as int),
    {
        let ghost runs = self.run_times();
        let total = self.sum_of_spans(self.len());
        assert(runs.take(self@.len() as int) =~= runs);
        total / (self.len() as i64)
    }

    /// The mean duration of the first `n` runs (all of them, when there are fewer), rounded
    /// toward zero.
    fn rolling_avg(&self, n: usize) -> (a: i64)
        ensures
            a == trunc_div(
                sum(spans(self.run_times().take(min_len(n, self.run_times().len())))),
                min_len(n, self.run_times().len()),
            ),
    {
        let m = if n < self.len() {
            n
        } else {
            self.len()
        };
        let total = self.sum_of_spans(m);
        total / (m as i64)
    }

    fn objective_time_verdict(&self, objective_idx: usize, new_time: &i64) -> (v: TimeVerdict)
        ensures
            v == match opt_min(objective_spans(self.run_times(), objective_idx as int)) {
                Some(best) => spec_time_verdict(best, *new_time as int),
                None => TimeVerdict::Best(0),
            },
    {
        match self.objective_time_min(objective_idx) {
            Some(previous_best) => time_verdict(&previous_best, new_time),
            None => TimeVerdict::Best(0),
        }
    }

    fn run_time_verdict(&self, new_time: &i64) -> (v: TimeVerdict)
        ensures
            v == match opt_min(spans(self.run_times())) {
                Some(best) => spec_time_verdict(best, *new_time as int),
                None => TimeVerdict::Best(0),
            },
    {
        match self.run_time_min() {
            Some(previous_best) => time_verdict(&previous_best, new_time),
            None => TimeVerdict::Best(0),
        }
    }
}

/// Adding up the durations of the first `m` runs.
trait SumOfSpans {
    spec fn span_times(&self) -> Seq<Seq<i64>>;

    fn sum_of_spans(&self, m: usize) -> i64
        requires
            m <= self.span_times().len(),
            runs_measurable(self.span_times().take(m as int)),
            sums_fit(spans(self.span_times().take(m as int))),
    ;
}

impl SumOfSpans for Vec<Vec<(EventEnum, i64)>> {
    spec fn span_times(&self) -> Seq<Seq<i64>> {
        runs_times(self@)
    }

    fn sum_of_spans(&self, m: usize) -> (total: i64)
        ensures
            total == sum(spans(self.span_times().take(m as int))),
    {
        let ghost runs = self.span_times().take(m as int);
        let mut total: i64 = 0;
        let mut i: usize = 0;
        while i < m
            invariant
                i <= m <= self@.len(),
                runs == self.span_times().take(m as int),
                runs_measurable(runs),
                sums_fit(spans(runs)),
                total == sum(spans(runs).take(i as int)),
            decreases m - i,
        {
            proof {
                assert(spans(runs).take(i + 1).drop_last() =~= spans(runs).take(i as int));
                assert(fits_i64(sum(spans(runs).take(i + 1))));
                assert(runs[i as int] == self@[i as int].times());
            }
            let d = self[i].to_duration();
            total = total + d;
            i = i + 1;
        }
        assert(spans(runs).take(m as int) =~= spans(runs));
        total
    }
}

/// Statistics over a list of durations.
pub trait SequenceStatistics {
    /// The durations.
    spec fn durations(&self) -> Seq<int>;

    fn avg(&self) -> i64
        requires
            0 < self.durations().len() <= i64::MAX,
            sums_fit(self.durations()),
    ;

    fn rolling_avg(&self, n: usize) -> i64
        requires
            0 < n,
            0 < self.durations().len() <= i64::MAX,
            sums_fit(latest(self.durations(), min_len(n, self.durations().len()))),
    ;
}

/// The last `m` elements, latest first.
pub open spec fn latest(s: Seq<int>, m: int) -> Seq<int> {
    Seq::new(m as nat, |i: int| s[s.len() - 1 - i])
}

impl SequenceStatistics for Vec<i64> {
    open spec fn durations(&self) -> Seq<int> {
        Seq::new(self@.len(), |i: int| self@[i] as int)
    }

    /// The mean, rounded toward zero.
    fn avg(&self) -> (a: i64)
        ensures
            a == trunc_div(sum(self.durations()), self@.len() as int),
    {
        let ghost d = self.durations();
        let mut total: i64 = 0;
        let mut i: usize = 0;
        while i < self.len()
            invariant
                i <= self@.len(),
                d == self.durations(),
                sums_fit(d),
                total == sum(d.take(i as int)),
            decreases self@.len() - i,
        {
            proof {
                assert(d.take(i + 1).drop_last() =~= d.take(i as int));
                assert(fits_i64(sum(d.take(i + 1))));
            }
            total = total + self[i];
            i = i + 1;
        }
        assert(d.take(self@.len() as int) =~= d);
        total / (self.len() as i64)
    }

    /// The mean of the last `n` durations (all of them, when there are fewer), rounded toward
    /// zero.
    fn rolling_avg(&self, n: usize) -> (a: i64)
        ensures
            a == trunc_div(
                sum(latest(self.durations(), min_len(n, self.durations().len()))),
                min_len(n, self.durations().len()),
            ),
    {
        let ghost d = self.durations();
        let m = if n < self.len() {
            n
        } else {
            self.len()
        };
        let ghost l = latest(d, m as int);
        let mut total: i64 = 0;
        let mut i: usize = 0;
        while i < m
            invariant
                i <= m <= self@.len(),
                d == self.durations(),
                l == latest(d, m as int),
                sums_fit(l),
                total == sum(l.take(i as int)),
            decreases m - i,
        {
            proof {
                assert(l.take(i + 1).drop_last() =~= l.take(i as int));
                assert(fits_i64(sum(l.take(i + 1))));
            }
            total = total + self[self.len() - 1 - i];
            i = i + 1;
        }
        assert(l.take(m as int) =~= l);
        total / (m as i64)
    }
}

/// Whether the durations of the first `m` runs add up within `i64` at every step, so that
/// their average can be taken.
pub fn spans_sum_fits(runs: &Vec<Vec<(EventEnum, i64)>>, m: usize) -> (r: bool)
    requires
        m <= runs@.len(),
        runs_measurable(runs_times(runs@).take(m as int)),
    ensures
        r == sums_fit(spans(runs_times(runs@).take(m as int))),
{
    let ghost t = runs_times(runs@).take(m as int);
    let ghost s = spans(t);
    let mut total: i64 = 0;
    let mut i: usize = 0;
    while i < m
        invariant
            i <= m <= runs@.len(),
            t == runs_times(runs@).take(m as int),
            s == spans(t),
            runs_measurable(t),
            total == sum(s.take(i as int)),
            forall|k: int| 0 <= k <= i ==> #[trigger] fits_i64(sum(s.take(k))),
        decreases m - i,
    {
        proof {
            assert(s.take(i + 1).drop_last() =~= s.take(i as int));
            assert(t[i as int] == runs@[i as int].times());
        }
        let d = runs[i].to_duration();
        let next: i128 = total as i128 + d as i128;
        if next < i64::MIN as i128 || next > i64::MAX as i128 {
            assert(!fits_i64(sum(s.take(i + 1))));
            return false;
        }
        total = next as i64;
        i = i + 1;
    }
    assert(s.take(m as int) =~= s);
    assert forall|k: int| 0 <= k <= s.len() implies #[trigger] fits_i64(sum(s.take(k))) by {
        assert(s.take(m as int).take(k) =~= s.take(k));
    }
    true
}

/// The smallest element lies within any bounds that all elements lie within.
pub proof fn lemma_seq_min_bounded(s: Seq<int>, lo: int, hi: int)
    requires
        s.len() > 0,
        forall|i: int| 0 <= i < s.len() ==> lo <= #[trigger] s[i] <= hi,
    ensures
        lo <= seq_min(s) <= hi,
    decreases s.len(),
{
    if s.len() > 1 {
        lemma_seq_min_bounded(s.drop_last(), lo, hi);
    }
}

/// The durations of objective `idx` are among the differences of the runs' times.
pub proof fn lemma_objective_spans_bounded(runs: Seq<Seq<i64>>, idx: int, bound: int)
    requires
        idx >= 0,
        forall|r: int, i: int|
            0 <= r < runs.len() && 0 <= i < runs[r].len() ==> -bound <= #[trigger] runs[r][i] <= bound,
    ensures
        forall|j: int|
            0 <= j < objective_spans(runs, idx).len() ==> -2 * bound <= #[trigger] objective_spans(
                runs,
                idx,
            )[j] <= 2 * bound,
    decreases runs.len(),
{
    if runs.len() > 0 {
        let prev = runs.drop_last();
        assert forall|r: int, i: int| 0 <= r < prev.len() && 0 <= i < prev[r].len() implies -bound
            <= #[trigger] prev[r][i] <= bound by {
            assert(prev[r] == runs[r]);
        }
        lemma_objective_spans_bounded(prev, idx, bound);
        let last = runs.last();
        assert(last == runs[runs.len() - 1]);
        if let Some(d) = objective_span(last, idx) {
            assert(-bound <= last[idx] <= bound);
            assert(-bound <= last[idx - 1] <= bound);
            let all = objective_spans(runs, idx);
            assert(all == objective_spans(prev, idx).push(d));
            assert forall|j: int| 0 <= j < all.len() implies -2 * bound <= #[trigger] all[j] <= 2
                * bound by {
                if j < all.len() - 1 {
                    assert(all[j] == objective_spans(prev, idx)[j]);
                }
            }
        }
    }
}

/// The smallest element of a non-empty sequence is one of its elements and no greater than
/// any of them.
pub proof fn law_min_is_least(s: Seq<int>)
    requires
        s.len() > 0,
    ensures
        exists|i: int| 0 <= i < s.len() && s[i] == seq_min(s),
        forall|i: int| 0 <= i < s.len() ==> seq_min(s) <= #[trigger] s[i],
    decreases s.len(),
{
    if s.len() == 1 {
        assert(s[0] == seq_min(s));
    } else {
        let p = s.drop_last();
        law_min_is_least(p);
        let k = choose|i: int| 0 <= i < p.len() && p[i] == seq_min(p);
        if s.last() < seq_min(p) {
            assert(s[s.len() - 1] == seq_min(s));
        } else {
            assert(s[k] == p[k]);
        }
        assert forall|i: int| 0 <= i < s.len() implies seq_min(s) <= #[trigger] s[i] by {
            if i < p.len() {
                assert(s[i] == p[i]);
            }
        }
    }
}

} // verus!
