//! How long the rest of a run will take.

use vstd::prelude::*;
use vstd::string::*;

use crate::binary::{binary_difference, binary_less, binary_quotient, binary_seconds, parts_in, quotient_is_positive, seconds_are_positive, Binary};
use crate::collection::{entry_of, has_key, keys_ascend, rank, rank_splits, with_entry, with_entry_laws, without_key, Keyed, KeyedList, Named, TextMap};
use crate::commands::ci_report::span_nanos;
use crate::gather::gathered;
use crate::repository::{test_names, TestId};
use crate::store::{Store, StoredRun};
use crate::text::compose::{cat2, cat4, cat5, texts};
use crate::text::number::{count_text, decimal, decimal_text};
use crate::text::scan::has_text;
use crate::time::{zero_pad, zero_padded, Duration, MAX_NANOS};
use crate::totals::{sum_of, sum_of_first, sum_without};

verus! {

broadcast use crate::text::compose::texts_push;

/// The lengths of durations under names.
pub open spec fn lengths(s: Seq<Named<Duration>>) -> Seq<nat> {
    Seq::new(s.len(), |i: int| s[i].value@)
}

/// The mean of durations under names, where there are any.
pub open spec fn mean_length(s: Seq<Named<Duration>>) -> Option<nat> {
    if s.len() == 0 {
        None
    } else {
        Some(sum_of(lengths(s)) / s.len())
    }
}

/// How long a test is expected to take: as long as usual, where that is known, else the mean.
pub open spec fn expected(s: Seq<Named<Duration>>, t: Seq<char>) -> nat {
    if has_key(s, t) {
        entry_of(s, t).value@
    } else {
        match mean_length(s) {
            Some(m) => m,
            None => 0,
        }
    }
}

/// How long tests are expected to take, one by one.
pub open spec fn expected_each(s: Seq<Named<Duration>>, names: Seq<Seq<char>>) -> Seq<nat> {
    Seq::new(names.len(), |i: int| expected(s, names[i]))
}

/// How long tests are expected to take, by how long they usually take.
#[derive(Debug)]
pub struct EtaModel {
    durations: TextMap<Duration>,
    mean_known: Option<Duration>,
}

impl EtaModel {
    /// The usual durations.
    pub closed spec fn view(&self) -> Seq<Named<Duration>> {
        self.durations@
    }

    #[verifier::type_invariant]
    closed spec fn knows_mean(&self) -> bool {
        span_nanos(self.mean_known) == mean_length(self.durations@)
    }

    /// A model of usual durations.
    pub fn new(durations: TextMap<Duration>) -> (r: EtaModel)
        requires
            sum_of(lengths(durations@)) <= MAX_NANOS,
        ensures
            r@ == durations@,
    {
        let mean_known: Option<Duration>;
        {
            let v: &Vec<Named<Duration>> = durations.entries();
            let n: usize = v.len();
            let ghost all = lengths(v@);
            let mut total: u128 = 0;
            for i in 0..n
                invariant
                    n == v@.len(),
                    all == lengths(v@),
                    sum_of(all) <= MAX_NANOS,
                    total == sum_of(all.take(i as int)),
            {
                proof {
                    assert(all.take(i + 1).drop_last() =~= all.take(i as int));
                    sum_of_first(all, i + 1);
                }
                total = total + v[i].value.as_nanos();
            }
            assert(all.take(all.len() as int) =~= all);
            if n == 0 {
                mean_known = None;
            } else {
                let mean: u128 = total / n as u128;
                assert(mean <= total) by (nonlinear_arith)
                    requires
                        mean == total / n as u128,
                        n > 0,
                ;
                mean_known = Some(Duration::from_nanos(mean));
            }
        }
        EtaModel { durations, mean_known }
    }

    /// How long a test is expected to take.
    pub fn duration_for(&self, test_id: &TestId) -> (d: Duration)
        ensures
            d@ == expected(self@, test_id@),
    {
        proof {
            use_type_invariant(self);
        }
        match self.durations.get(test_id.as_str()) {
            Some(d) => *d,
            None => match self.mean_known {
                Some(m) => m,
                None => Duration::from_nanos(0),
            },
        }
    }

    /// How long tests are expected to take all together.
    pub fn estimated_total(&self, tests: &Vec<TestId>) -> (d: Duration)
        requires
            sum_of(expected_each(self@, test_names(tests@))) <= MAX_NANOS,
        ensures
            d@ == sum_of(expected_each(self@, test_names(tests@))),
    {
        let ghost all = expected_each(self@, test_names(tests@));
        let mut total: u128 = 0;
        for i in 0..tests.len()
            invariant
                all == expected_each(self@, test_names(tests@)),
                sum_of(all) <= MAX_NANOS,
                total == sum_of(all.take(i as int)),
                total <= MAX_NANOS,
        {
            proof {
                assert(all.take(i + 1).drop_last() =~= all.take(i as int));
                sum_of_first(all, i + 1);
            }
            total = total + self.duration_for(&tests[i]).as_nanos();
        }
        assert(all.take(all.len() as int) =~= all);
        Duration::from_nanos(total)
    }

    /// Whether any usual duration is known.
    pub fn has_history(&self) -> (r: bool)
        ensures
            r == (self@.len() > 0),
    {
        proof {
            use_type_invariant(self);
        }
        self.mean_known.is_some()
    }

    /// The mean of the usual durations; zero where none is known.
    pub fn mean(&self) -> (d: Duration)
        ensures
            Some(d@) == (match mean_length(self@) {
                Some(m) => Some(m),
                None => Some(0nat),
            }),
    {
        proof {
            use_type_invariant(self);
        }
        match self.mean_known {
            Some(m) => m,
            None => Duration::from_nanos(0),
        }
    }
}

/// A span in hours and minutes, minutes and seconds, or seconds.
pub open spec fn short_text(nanos: nat) -> Seq<char> {
    let secs = nanos / 1_000_000_000;
    if secs >= 3600 {
        decimal(secs / 3600) + "h "@ + zero_padded((secs % 3600) / 60, 2) + "m"@
    } else if secs >= 60 {
        decimal(secs / 60) + "m "@ + zero_padded(secs % 60, 2) + "s"@
    } else {
        decimal(secs) + "s"@
    }
}

/// A span in hours and minutes, minutes and seconds, or seconds.
pub fn format_duration_short(d: Duration) -> (s: String)
    ensures
        s@ == short_text(d@),
{
    let secs: u128 = d.as_nanos() / 1_000_000_000;
    if secs >= 3600 {
        let mins: u128 = (secs % 3600) / 60;
        cat4(decimal_text(secs / 3600).as_str(), "h ", zero_pad(mins, 2).as_str(), "m")
    } else if secs >= 60 {
        cat4(decimal_text(secs / 60).as_str(), "m ", zero_pad(secs % 60, 2).as_str(), "s")
    } else {
        cat2(decimal_text(secs).as_str(), "s")
    }
}

/// How much of a run is done, at most all of it.
pub open spec fn done_fraction(total: nat, done: nat) -> (nat, nat) {
    let x = binary_quotient(binary_seconds(done), binary_seconds(total));
    if binary_less((1, 1), x) {
        (1, 1)
    } else {
        x
    }
}

/// How many nanoseconds the rest will take: as long in relation to what is done as so far.
pub open spec fn remaining(total: nat, done: nat, elapsed: nat) -> nat {
    let gone = binary_seconds(elapsed);
    let projected = binary_quotient(gone, done_fraction(total, done));
    if done < total && binary_less(gone, projected) {
        parts_in(binary_difference(projected, gone), 1_000_000_000)
    } else {
        0
    }
}

/// What is said of how long the rest will take: nothing where that cannot be told yet.
pub open spec fn eta_text(total: nat, done: nat, elapsed: nat) -> Seq<char> {
    if total == 0 || elapsed == 0 || done == 0 {
        Seq::empty()
    } else {
        " ETA: "@ + short_text(remaining(total, done, elapsed))
    }
}

/// Whether it can be said how long the rest will take.
pub open spec fn can_tell(total: nat, done: nat, elapsed: nat) -> bool {
    total > done > 0 && elapsed > 0 ==> remaining(total, done, elapsed) <= MAX_NANOS
}

/// Says how long the rest of a run will take, given how long all of it is expected to take, how
/// much of that is done, and how much time has gone by.
pub fn format_eta(
    estimated_total: Duration,
    completed_duration: Duration,
    elapsed: Duration,
) -> (s: String)
    requires
        can_tell(estimated_total@, completed_duration@, elapsed@),
    ensures
        s@ == eta_text(estimated_total@, completed_duration@, elapsed@),
{
    let total: u128 = estimated_total.as_nanos();
    let done: u128 = completed_duration.as_nanos();
    let gone: u128 = elapsed.as_nanos();
    if total == 0 || gone == 0 || done == 0 {
        let s: String = String::new();
        assert(s@ =~= Seq::<char>::empty());
        return s;
    }
    let rest: Duration = if done >= total {
        Duration::from_nanos(0)
    } else {
        find_remaining(estimated_total, completed_duration, elapsed)
    };
    cat2(" ETA: ", format_duration_short(rest).as_str())
}

/// How long the rest will take.
fn find_remaining(total: Duration, done: Duration, elapsed: Duration) -> (r: Duration)
    requires
        0 < done@ < total@,
        remaining(total@, done@, elapsed@) <= MAX_NANOS,
    ensures
        r@ == remaining(total@, done@, elapsed@),
{
    proof {
        let (d, t) = (binary_seconds(done@), binary_seconds(total@));
        seconds_are_positive(done@);
        seconds_are_positive(total@);
        quotient_is_positive(d, t);
    }
    let gone: Binary = Binary::seconds(elapsed);
    let mut fraction: Binary = Binary::seconds(done).over(&Binary::seconds(total));
    let one: Binary = Binary::one();
    if one.less(&fraction) {
        fraction = one;
    }
    let projected: Binary = gone.over(&fraction);
    if gone.less(&projected) {
        match projected.distance(&gone).to_span() {
            Some(d) => d,
            None => Duration::from_nanos(0),
        }
    } else {
        Duration::from_nanos(0)
    }
}

/// A test that is being run.
#[derive(Clone, Copy, Debug)]
pub struct InFlight {
    /// When it was started.
    pub started: Duration,
    /// How long it is expected to take.
    pub expected: Duration,
}

/// How far a run has come. Points in time are given as spans since some fixed moment.
#[derive(Debug)]
pub struct EtaState {
    /// How long the run is expected to take.
    pub estimated_total: Duration,
    /// How long the tests that have ended took.
    pub completed_duration: Duration,
    /// The tests that are being run.
    pub in_flight: TextMap<InFlight>,
    /// When the first test was started.
    pub first_start_at: Option<Duration>,
}

/// The time from one moment to another; zero where the other comes first.
pub open spec fn since(start: nat, now: nat) -> nat {
    if now > start {
        (now - start) as nat
    } else {
        0
    }
}

/// How much of what is expected of a test is done: as long as it has been running, up to what is
/// expected.
pub open spec fn credit(f: InFlight, now: nat) -> nat {
    let t = since(f.started@, now);
    if t < f.expected@ {
        t
    } else {
        f.expected@
    }
}

/// How much is done of the tests that are being run, one by one.
pub open spec fn credits(s: Seq<Named<InFlight>>, now: nat) -> Seq<nat> {
    Seq::new(s.len(), |i: int| credit(s[i].value, now))
}

/// How much of a run is done.
pub open spec fn total_credit(e: EtaState, now: nat) -> nat {
    e.completed_duration@ + sum_of(credits(e.in_flight@, now))
}

/// How long a test took that ends now; as long as expected where it was not seen to start.
pub open spec fn actual_length(e: EtaState, t: Seq<char>, expected: nat, now: nat) -> nat {
    if has_key(e.in_flight@, t) {
        since(entry_of(e.in_flight@, t).value.started@, now)
    } else {
        expected
    }
}

/// How long a run is expected to take after a test took longer or shorter than expected.
pub open spec fn adjusted(total: nat, actual: nat, expected: nat) -> nat {
    if total + actual > expected {
        (total + actual - expected) as nat
    } else {
        0
    }
}

/// The time from one moment to another; zero where the other comes first.
fn time_since(start: Duration, now: Duration) -> (d: Duration)
    ensures
        d@ == since(start@, now@),
{
    if now.as_nanos() > start.as_nanos() {
        Duration::from_nanos(now.as_nanos() - start.as_nanos())
    } else {
        Duration::from_nanos(0)
    }
}

impl EtaState {
    /// A run that has not started.
    pub fn new(estimated_total: Duration) -> (r: EtaState)
        ensures
            r.estimated_total == estimated_total,
            r.completed_duration@ == 0,
            r.in_flight@ == Seq::<Named<InFlight>>::empty(),
            r.first_start_at is None,
    {
        EtaState {
            estimated_total,
            completed_duration: Duration::from_nanos(0),
            in_flight: KeyedList::new(),
            first_start_at: None,
        }
    }

    /// A test is started.
    pub fn mark_started(&mut self, test_id: &TestId, expected: Duration, now: Duration)
        ensures
            final(self).estimated_total == old(self).estimated_total,
            final(self).completed_duration == old(self).completed_duration,
            final(self).first_start_at == (match old(self).first_start_at {
                Some(t) => Some(t),
                None => Some(now),
            }),
            exists|e: Named<InFlight>|
                {
                    &&& e.name@ == test_id@
                    &&& e.value == (InFlight { started: now, expected })
                    &&& final(self).in_flight@ == #[trigger] with_entry(old(self).in_flight@, e)
                },
    {
        if self.first_start_at.is_none() {
            self.first_start_at = Some(now);
        }
        self.in_flight.insert(test_id.as_str(), InFlight { started: now, expected });
    }

    /// A test ends. What the run is expected to take changes by as much as the test took longer or
    /// shorter than expected.
    pub fn add_completed(&mut self, test_id: &TestId, expected: Duration, now: Duration)
        requires
            old(self).completed_duration@ + actual_length(
                *old(self),
                test_id@,
                expected@,
                now@,
            ) <= MAX_NANOS,
            old(self).estimated_total@ + actual_length(*old(self), test_id@, expected@, now@)
                - expected@ <= MAX_NANOS,
        ensures
            final(self).first_start_at == old(self).first_start_at,
            final(self).in_flight@ == without_key(old(self).in_flight@, test_id@),
            final(self).completed_duration@ == old(self).completed_duration@ + actual_length(
                *old(self),
                test_id@,
                expected@,
                now@,
            ),
            final(self).estimated_total@ == adjusted(
                old(self).estimated_total@,
                actual_length(*old(self), test_id@, expected@, now@),
                expected@,
            ),
    {
        let actual: Duration = match self.in_flight.take(test_id.as_str()) {
            Some(e) => time_since(e.value.started, now),
            None => expected,
        };
        let a: u128 = actual.as_nanos();
        let x: u128 = expected.as_nanos();
        let total: u128 = self.estimated_total.as_nanos();
        self.completed_duration = Duration::from_nanos(self.completed_duration.as_nanos() + a);
        let adjusted: u128 = if total + a > x {
            total + a - x
        } else {
            0
        };
        self.estimated_total = Duration::from_nanos(adjusted);
    }

    /// How much of the run is done.
    pub fn credit_snapshot(&self, now: Duration) -> (d: Duration)
        requires
            total_credit(*self, now@) <= MAX_NANOS,
        ensures
            d@ == total_credit(*self, now@),
    {
        let v: &Vec<Named<InFlight>> = self.in_flight.entries();
        let ghost all = credits(v@, now@);
        let mut total: u128 = self.completed_duration.as_nanos();
        for i in 0..v.len()
            invariant
                all == credits(v@, now@),
                self.completed_duration@ + sum_of(all) <= MAX_NANOS,
                total == self.completed_duration@ + sum_of(all.take(i as int)),
        {
            proof {
                assert(all.take(i + 1).drop_last() =~= all.take(i as int));
                sum_of_first(all, i + 1);
            }
            let running: u128 = time_since(v[i].value.started, now).as_nanos();
            let limit: u128 = v[i].value.expected.as_nanos();
            total = total + if running < limit {
                running
            } else {
                limit
            };
        }
        assert(all.take(all.len() as int) =~= all);
        Duration::from_nanos(total)
    }

    /// Says how long the rest of the run will take; nothing before a test has been started.
    pub fn render(&self, now: Duration) -> (s: String)
        requires
            total_credit(*self, now@) <= MAX_NANOS,
            self.first_start_at matches Some(t) ==> can_tell(
                self.estimated_total@,
                total_credit(*self, now@),
                since(t@, now@),
            ),
        ensures
            s@ == (match self.first_start_at {
                Some(t) => eta_text(
                    self.estimated_total@,
                    total_credit(*self, now@),
                    since(t@, now@),
                ),
                None => Seq::empty(),
            }),
    {
        match self.first_start_at {
            None => {
                let s: String = String::new();
                assert(s@ =~= Seq::<char>::empty());
                s
            },
            Some(t) => format_eta(
                self.estimated_total,
                self.credit_snapshot(now),
                time_since(t, now),
            ),
        }
    }
}

/// The end of a test does not change how much is done, where the test took no longer than
/// expected: what was credited while it was running is what is credited then.
pub proof fn completion_keeps_credit(before: EtaState, after: EtaState, t: Seq<char>, expected: nat, now: nat)
    requires
        keys_ascend(before.in_flight@),
        has_key(before.in_flight@, t),
        since(entry_of(before.in_flight@, t).value.started@, now) <= entry_of(
            before.in_flight@,
            t,
        ).value.expected@,
        after.in_flight@ == without_key(before.in_flight@, t),
        after.completed_duration@ == before.completed_duration@ + actual_length(
            before,
            t,
            expected,
            now,
        ),
    ensures
        total_credit(after, now) == total_credit(before, now),
{
    let s = before.in_flight@;
    let p = rank(s, t);
    rank_splits(s, t);
    crate::collection::entry_is_unique(s, p);
    sum_without(credits(s, now), p);
    assert(credits(s, now).remove(p) =~= credits(without_key(s, t), now));
}

/// The end of a test takes what was expected of it off what is left: whatever it took, the
/// difference between the expected length of the run and what has ended shrinks by that.
pub proof fn completion_takes_off_what_was_expected(total: nat, completed: nat, actual: nat, expected: nat)
    requires
        total + actual >= expected,
    ensures
        adjusted(total, actual, expected) - (completed + actual) == (total - completed) - expected,
{
}

/// A run of which more is done than was expected has nothing left.
pub proof fn nothing_is_left_when_done(total: nat, done: nat, elapsed: nat)
    requires
        0 < total <= done,
        elapsed > 0,
    ensures
        eta_text(total, done, elapsed) == " ETA: "@ + short_text(0),
{
}

/// One observation of how long a run was expected to take and how long it took.
#[derive(Clone, Copy, Debug)]
pub struct CalibrationSample {
    /// How many workers there were.
    pub concurrency: u32,
    /// How long the run was expected to take.
    pub predicted: Duration,
    /// How long it took.
    pub actual: Duration,
}

/// How many observations are taken into account.
pub const CALIBRATION_LOOKBACK: usize = 20;

/// How many observations there must be.
pub const CALIBRATION_MIN_SAMPLES: usize = 3;

/// The observation of a run, where enough of it was recorded.
pub open spec fn sample_part(runs: Seq<StoredRun>, from: int) -> spec_fn(int) -> Seq<
    CalibrationSample,
> {
    |i: int|
        {
            let m = runs[from + i].metadata;
            if m.predicted_duration is Some && m.duration is Some && m.concurrency is Some {
                seq![
                    CalibrationSample {
                        concurrency: m.concurrency->0,
                        predicted: m.predicted_duration->0,
                        actual: m.duration->0,
                    },
                ]
            } else {
                Seq::empty()
            }
        }
}

/// The observations of the last eighty runs, the oldest first. Runs of which not enough was
/// recorded give none.
pub fn load_calibration_samples(store: &Store) -> (r: Vec<CalibrationSample>)
    ensures
        ({
            let n = store.runs@.len();
            let from = if n > 80 {
                n - 80
            } else {
                0
            };
            r@ == gathered(sample_part(store.runs@, from), (n - from) as nat)
        }),
{
    let n: usize = store.runs.len();
    let limit: usize = CALIBRATION_LOOKBACK * 4;
    let from: usize = if n > limit {
        n - limit
    } else {
        0
    };
    let mut r: Vec<CalibrationSample> = Vec::new();
    for i in from..n
        invariant
            n == store.runs@.len(),
            from <= n,
            r@ =~= gathered(sample_part(store.runs@, from as int), (i - from) as nat),
    {
        let m: &crate::repository::RunMetadata = &store.runs[i].metadata;
        if let Some(predicted) = m.predicted_duration {
            if let Some(actual) = m.duration {
                if let Some(concurrency) = m.concurrency {
                    r.push(CalibrationSample { concurrency, predicted, actual });
                }
            }
        }
    }
    r
}

/// Whether an observation tells something of runs with a number of workers.
pub open spec fn is_usable(s: CalibrationSample, concurrency: u32) -> bool {
    s.concurrency == concurrency && s.predicted@ > 0 && s.actual@ > 0
}

/// The observations that tell something.
pub open spec fn usable(samples: Seq<CalibrationSample>, concurrency: u32) -> Seq<CalibrationSample>
    decreases samples.len(),
{
    if samples.len() == 0 {
        Seq::empty()
    } else {
        let before = usable(samples.drop_last(), concurrency);
        if is_usable(samples.last(), concurrency) {
            before.push(samples.last())
        } else {
            before
        }
    }
}

/// The observations that count for runs with a number of workers: the last twenty that tell
/// something.
pub open spec fn bucket_of(samples: Seq<CalibrationSample>, concurrency: u32) -> Seq<
    CalibrationSample,
> {
    let all = usable(samples, concurrency);
    if all.len() > CALIBRATION_LOOKBACK {
        all.skip(all.len() - CALIBRATION_LOOKBACK)
    } else {
        all
    }
}

/// What counts for runs with a number of workers was observed with as many, and tells something.
/// There are at most twenty such observations, and they are the latest ones.
pub proof fn calibration_rests_on_like_runs(samples: Seq<CalibrationSample>, concurrency: u32)
    ensures
        bucket_of(samples, concurrency).len() <= 20,
        forall|i: int|
            0 <= i < bucket_of(samples, concurrency).len() ==> (#[trigger] bucket_of(
                samples,
                concurrency,
            )[i]).concurrency == concurrency && bucket_of(samples, concurrency)[i].predicted@ > 0
                && bucket_of(samples, concurrency)[i].actual@ > 0,
        samples.len() > 0 && samples.last().concurrency == concurrency && samples.last().predicted@
            > 0 && samples.last().actual@ > 0 ==> bucket_of(samples, concurrency).len() > 0
            && bucket_of(samples, concurrency).last() == samples.last(),
{
    usable_are_usable(samples, concurrency);
    let all = usable(samples, concurrency);
    let bucket = bucket_of(samples, concurrency);
    assert forall|i: int| 0 <= i < bucket.len() implies (#[trigger] bucket[i]).concurrency
        == concurrency && bucket[i].predicted@ > 0 && bucket[i].actual@ > 0 by {
        assert(is_usable(all[i + all.len() - bucket.len()], concurrency));
    }
}

proof fn usable_are_usable(samples: Seq<CalibrationSample>, concurrency: u32)
    ensures
        forall|i: int|
            0 <= i < usable(samples, concurrency).len() ==> is_usable(
                #[trigger] usable(samples, concurrency)[i],
                concurrency,
            ),
    decreases samples.len(),
{
    if samples.len() > 0 {
        let before = usable(samples.drop_last(), concurrency);
        let all = usable(samples, concurrency);
        usable_are_usable(samples.drop_last(), concurrency);
        assert forall|i: int| 0 <= i < all.len() implies is_usable(#[trigger] all[i], concurrency) by {
            if i < before.len() {
                assert(before[i] == all[i]);
            }
        }
    }
}

/// The observations that count for runs with a number of workers, the oldest first.
pub fn calibration_bucket(samples: &Vec<CalibrationSample>, concurrency: u32) -> (r: Vec<
    CalibrationSample,
>)
    ensures
        r@ == bucket_of(samples@, concurrency),
{
    let mut all: Vec<CalibrationSample> = Vec::new();
    for i in 0..samples.len()
        invariant
            all@ == usable(samples@.take(i as int), concurrency),
    {
        assert(samples@.take(i + 1).drop_last() =~= samples@.take(i as int));
        let s: CalibrationSample = samples[i];
        if s.concurrency == concurrency && s.predicted.as_nanos() > 0 && s.actual.as_nanos() > 0 {
            all.push(s);
        }
    }
    assert(samples@.take(samples@.len() as int) =~= samples@);
    let n: usize = all.len();
    let from: usize = if n > CALIBRATION_LOOKBACK {
        n - CALIBRATION_LOOKBACK
    } else {
        0
    };
    let mut r: Vec<CalibrationSample> = Vec::new();
    for i in from..n
        invariant
            n == all@.len(),
            from <= n,
            r@ =~= all@.subrange(from as int, i as int),
    {
        r.push(all[i]);
    }
    assert(r@ =~= bucket_of(samples@, concurrency));
    r
}

/// Whether `m` holds the entries of `times` for the given tests.
pub open spec fn is_restriction(
    m: Seq<Named<Duration>>,
    times: Seq<Named<Duration>>,
    names: Seq<Seq<char>>,
) -> bool {
    &&& keys_ascend(m)
    &&& forall|t: Seq<char>| #[trigger] has_key(m, t) <==> has_key(times, t) && has_text(names, t)
    &&& forall|t: Seq<char>| #[trigger]
        has_key(m, t) ==> entry_of(m, t).value == entry_of(times, t).value
}

/// How many of the tests have a usual duration.
pub open spec fn known_count(times: Seq<Named<Duration>>, names: Seq<Seq<char>>) -> nat
    decreases names.len(),
{
    if names.len() == 0 {
        0
    } else {
        known_count(times, names.drop_last()) + if has_key(times, names.last()) {
            1nat
        } else {
            0nat
        }
    }
}

/// How long a run is expected to take, with what that rests on.
#[derive(Clone, Copy, Debug)]
pub struct Prediction {
    /// How many tests there are.
    pub selected: usize,
    /// How many of them have a usual duration.
    pub known: usize,
    /// The mean of the usual durations.
    pub mean: Duration,
    /// How long the tests are expected to take one after the other.
    pub raw_total: Duration,
    /// How many workers there are.
    pub concurrency: u32,
    /// How long each worker is expected to take.
    pub per_worker: Duration,
}

/// The entries for the given tests.
fn restrict(times: &TextMap<Duration>, tests: &Vec<TestId>) -> (r: TextMap<Duration>)
    ensures
        is_restriction(r@, times@, test_names(tests@)),
{
    let ghost names = test_names(tests@);
    let mut r: TextMap<Duration> = KeyedList::new();
    let _ = r.entries();
    for i in 0..tests.len()
        invariant
            names == test_names(tests@),
            keys_ascend(r@),
            forall|t: Seq<char>| #[trigger]
                has_key(r@, t) <==> has_key(times@, t) && has_text(names.take(i as int), t),
            forall|t: Seq<char>| #[trigger]
                has_key(r@, t) ==> entry_of(r@, t).value == entry_of(times@, t).value,
    {
        let ghost before = r@;
        let ghost name = names[i as int];
        proof {
            taken_text(names, i as int);
        }
        if let Some(d) = times.get(tests[i].as_str()) {
            let e: Named<Duration> = Named { name: tests[i].as_str().to_owned(), value: *d };
            let ghost g = e;
            r.put(e);
            proof {
                with_entry_laws(before, g);
                assert(g.key_text() == name);
                assert forall|t: Seq<char>| #[trigger]
                    has_key(r@, t) <==> has_key(times@, t) && has_text(names.take(i + 1), t) by {
                    if t != name {
                        assert(has_key(r@, t) == has_key(before, t));
                    }
                }
                assert forall|t: Seq<char>| #[trigger] has_key(r@, t) implies entry_of(r@, t).value
                    == entry_of(times@, t).value by {
                    if t != name {
                        assert(has_key(before, t));
                    }
                }
            }
        } else {
            proof {
                assert forall|t: Seq<char>| #[trigger]
                    has_key(r@, t) <==> has_key(times@, t) && has_text(names.take(i + 1), t) by {
                }
            }
        }
    }
    assert(names.take(names.len() as int) =~= names);
    r
}

/// One more name.
proof fn taken_text(names: Seq<Seq<char>>, i: int)
    requires
        0 <= i < names.len(),
    ensures
        forall|t: Seq<char>| #[trigger]
            has_text(names.take(i + 1), t) == (has_text(names.take(i), t) || t == names[i]),
{
    let a = names.take(i);
    let b = names.take(i + 1);
    assert forall|t: Seq<char>| #[trigger] has_text(b, t) == (has_text(a, t) || t == names[i]) by {
        if has_text(b, t) {
            let k = choose|k: int| 0 <= k < b.len() && #[trigger] b[k] == t;
            if k < i {
                assert(a[k] == t);
            }
        }
        if has_text(a, t) {
            let k = choose|k: int| 0 <= k < a.len() && #[trigger] a[k] == t;
            assert(b[k] == t);
        }
        assert(b[i] == names[i]);
    }
}

/// Whether `p` is how long a run is expected to take, by usual durations of its tests.
pub open spec fn is_prediction(
    p: Prediction,
    m: Seq<Named<Duration>>,
    times: Seq<Named<Duration>>,
    names: Seq<Seq<char>>,
    concurrency: u32,
) -> bool {
    &&& p.selected == names.len()
    &&& p.known == known_count(times, names)
    &&& p.mean@ == (match mean_length(m) {
        Some(x) => x,
        None => 0,
    })
    &&& p.raw_total@ == sum_of(expected_each(m, names))
    &&& p.concurrency == concurrency
    &&& p.per_worker@ == (if concurrency > 1 {
        p.raw_total@ / (concurrency as nat)
    } else {
        p.raw_total@
    })
}

/// How long a run is expected to take.
pub fn predict(tests: &Vec<TestId>, times: &TextMap<Duration>, concurrency: u32) -> (p: Prediction)
    requires
        forall|m: Seq<Named<Duration>>| #[trigger]
            is_restriction(m, times@, test_names(tests@)) ==> sum_of(lengths(m)) <= MAX_NANOS
                && sum_of(expected_each(m, test_names(tests@))) <= MAX_NANOS,
    ensures
        exists|m: Seq<Named<Duration>>| #[trigger]
            is_restriction(m, times@, test_names(tests@)) && is_prediction(
                p,
                m,
                times@,
                test_names(tests@),
                concurrency,
            ),
{
    let ghost names = test_names(tests@);
    let mut known: usize = 0;
    for i in 0..tests.len()
        invariant
            names == test_names(tests@),
            known == known_count(times@, names.take(i as int)),
            known <= i,
    {
        assert(names.take(i + 1).drop_last() =~= names.take(i as int));
        if times.contains_key(tests[i].as_str()) {
            known += 1;
        }
    }
    assert(names.take(names.len() as int) =~= names);
    let restricted: TextMap<Duration> = restrict(times, tests);
    let ghost m = restricted@;
    let model: EtaModel = EtaModel::new(restricted);
    let raw_total: Duration = model.estimated_total(tests);
    let per_worker: Duration = if concurrency > 1 {
        let n: u128 = raw_total.as_nanos() / concurrency as u128;
        assert(n <= raw_total@) by (nonlinear_arith)
            requires
                n == raw_total@ / concurrency as nat,
                concurrency > 1,
        ;
        Duration::from_nanos(n)
    } else {
        raw_total
    };
    let p: Prediction = Prediction {
        selected: tests.len(),
        known,
        mean: model.mean(),
        raw_total,
        concurrency,
        per_worker,
    };
    assert(is_restriction(m, times@, names) && is_prediction(p, m, times@, names, concurrency));
    p
}

/// What is said of how long a run is expected to take, given a correction and what it gives.
pub open spec fn prediction_lines(p: Prediction, factor: Seq<char>, calibrated: nat) -> Seq<
    Seq<char>,
> {
    if p.selected == 0 {
        seq![
            "ETA debug: prediction breakdown unavailable (tests will be discovered by the runner)."@,
        ]
    } else {
        seq![
            "ETA debug: "@ + decimal(p.selected as nat) + " test(s) selected — "@ + decimal(
                p.known as nat,
            ) + " with history, "@ + decimal(since(p.known as nat, p.selected as nat))
                + " new (mean fallback "@ + short_text(p.mean@) + ")."@,
            if p.concurrency > 1 {
                "  Raw sequential estimate: "@ + short_text(p.raw_total@) + " → "@ + decimal(
                    p.concurrency as nat,
                ) + "-way parallel: "@ + short_text(p.per_worker@) + " → calibrated (×"@ + factor
                    + "): "@ + short_text(calibrated)
            } else {
                "  Raw estimate: "@ + short_text(p.raw_total@) + " → calibrated (×"@ + factor
                    + "): "@ + short_text(calibrated)
            },
        ]
    }
}

/// What is said of how long a run is expected to take, given the text of a correction and what the
/// correction gives.
pub fn format_prediction_debug(p: &Prediction, factor: &str, calibrated: Duration) -> (r: Vec<String>)
    ensures
        texts(r@) == prediction_lines(*p, factor@, calibrated@),
{
    let mut r: Vec<String> = Vec::new();
    if p.selected == 0 {
        r.push(
            "ETA debug: prediction breakdown unavailable (tests will be discovered by the runner).".to_owned(),
        );
        assert(texts(r@) =~= prediction_lines(*p, factor@, calibrated@));
        return r;
    }
    let unknown: usize = if p.selected > p.known {
        p.selected - p.known
    } else {
        0
    };
    let mut first: String = cat5(
        "ETA debug: ",
        count_text(p.selected).as_str(),
        " test(s) selected — ",
        count_text(p.known).as_str(),
        " with history, ",
    );
    first.append(count_text(unknown).as_str());
    first.append(" new (mean fallback ");
    first.append(format_duration_short(p.mean).as_str());
    first.append(").");
    r.push(first);
    let mut second: String;
    if p.concurrency > 1 {
        second = cat5(
            "  Raw sequential estimate: ",
            format_duration_short(p.raw_total).as_str(),
            " → ",
            decimal_text(p.concurrency as u128).as_str(),
            "-way parallel: ",
        );
        second.append(format_duration_short(p.per_worker).as_str());
    } else {
        second = cat2("  Raw estimate: ", format_duration_short(p.raw_total).as_str());
    }
    second.append(" → calibrated (×");
    second.append(factor);
    second.append("): ");
    second.append(format_duration_short(calibrated).as_str());
    r.push(second);
    assert(texts(r@) =~= prediction_lines(*p, factor@, calibrated@));
    r
}

} // verus!
