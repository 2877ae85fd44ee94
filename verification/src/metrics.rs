//! Durations and the running latency average of a backend.

use vstd::prelude::*;

verus! {

/// Nanoseconds in a second.
pub const NANOS_PER_SEC: u32 = 1_000_000_000;

/// Nanoseconds in a millisecond.
pub const NANOS_PER_MILLI: u64 = 1_000_000;

/// A span of time: whole seconds, and less than a second in nanoseconds.
#[derive(Debug, Clone, Copy, PartialEq, Eq, Structural)]
pub struct Duration {
    secs: u64,
    nanos: u32,
}

impl View for Duration {
    type V = nat;

    /// The length of the span in nanoseconds.
    closed spec fn view(&self) -> nat {
        (self.secs * NANOS_PER_SEC + self.nanos) as nat
    }
}

impl Duration {
    #[verifier::type_invariant]
    spec fn normalized(self) -> bool {
        self.nanos < NANOS_PER_SEC
    }

    /// The span of `secs` seconds and `nanos` nanoseconds.
    pub fn new(secs: u64, nanos: u32) -> (d: Duration)
        requires
            nanos < NANOS_PER_SEC,
        ensures
            d@ == secs * NANOS_PER_SEC + nanos,
            d@ == secs * 1_000_000_000 + nanos,
    {
        Duration { secs, nanos }
    }

    /// The span of `nanos` nanoseconds.
    pub fn from_nanos(nanos: u64) -> (d: Duration)
        ensures
            d@ == nanos,
    {
        let per_sec: u64 = NANOS_PER_SEC as u64;
        Duration { secs: nanos / per_sec, nanos: (nanos % per_sec) as u32 }
    }

    /// The length of the span in nanoseconds.
    pub fn as_nanos(&self) -> (nanos: u128)
        ensures
            nanos == self@,
    {
        proof {
            use_type_invariant(self);
        }
        assert(self.secs * NANOS_PER_SEC <= u64::MAX * 1_000_000_000);
        self.secs as u128 * NANOS_PER_SEC as u128 + self.nanos as u128
    }
}

/// A sample as it is folded into an average: its low 64 bits, in nanoseconds.
pub open spec fn sample_ns(nanos: nat) -> nat {
    nanos % 0x1_0000_0000_0000_0000
}

/// The average after one more sample. The first sample that is not zero is taken as it is; after
/// that an eighth of what a sample exceeds the average by is added, and a sample that does not
/// exceed the average leaves it alone.
pub open spec fn next_avg(avg: nat, sample: nat) -> nat {
    if avg == 0 {
        sample
    } else if sample <= avg {
        avg
    } else {
        avg + (sample - avg) as nat / 8
    }
}

/// The average after a sequence of spans, given in nanoseconds, has been recorded.
pub open spec fn avg_after(avg: nat, spans: Seq<nat>) -> nat
    decreases spans.len(),
{
    if spans.len() == 0 {
        avg
    } else {
        next_avg(avg_after(avg, spans.drop_last()), sample_ns(spans.last()))
    }
}

/// The latency statistics of a backend.
#[derive(Debug, Clone, Copy, PartialEq, Eq, Structural)]
pub struct Metrics {
    avg_ns: u64,
}

impl View for Metrics {
    type V = u64;

    /// The running average in nanoseconds.
    closed spec fn view(&self) -> u64 {
        self.avg_ns
    }
}

impl Metrics {
    /// Statistics with nothing recorded.
    pub fn new() -> (m: Metrics)
        ensures
            m@ == 0,
    {
        Metrics { avg_ns: 0 }
    }

    /// Folds one span into the average.
    pub fn record(&mut self, d: Duration)
        ensures
            final(self)@ == next_avg(old(self)@ as nat, sample_ns(d@)),
            old(self)@ == 0 ==> final(self)@ == d@ % 0x1_0000_0000_0000_0000,
            0 < old(self)@ && d@ % 0x1_0000_0000_0000_0000 <= old(self)@ ==> final(self)@ == old(self)@,
            0 < old(self)@ < d@ % 0x1_0000_0000_0000_0000 ==> 8 * (final(self)@ - old(self)@) <= d@ % 0x1_0000_0000_0000_0000 - old(self)@ < 8 * (final(self)@ - old(self)@) + 8,
    {
        let total: u128 = d.as_nanos();
        let ns: u64 = #[verifier::truncate] (total as u64);
        assert(total as u64 == total % 0x1_0000_0000_0000_0000u128) by (bit_vector);
        let old_ns: u64 = self.avg_ns;
        let excess: u64 = ns.saturating_sub(old_ns);
        assert(excess >> 3 == excess / 8) by (bit_vector);
        let new_ns: u64 = if old_ns == 0 {
            ns
        } else {
            old_ns + (excess >> 3)
        };
        self.avg_ns = new_ns;
        proof {
            average_takes_an_eighth_of_the_excess(old_ns as nat, sample_ns(d@));
        }
    }

    /// The average as a span.
    pub fn avg_duration(&self) -> (d: Duration)
        ensures
            d@ == self@,
    {
        Duration::from_nanos(self.avg_ns)
    }

    /// The average in nanoseconds.
    pub fn avg_ns(&self) -> (ns: u64)
        ensures
            ns == self@,
    {
        self.avg_ns
    }
}

/// A further sample never lowers the average, and never lifts it above the larger of the average
/// and the sample.
pub proof fn average_moves_towards_larger_samples(avg: nat, sample: nat)
    ensures
        avg <= next_avg(avg, sample),
        next_avg(avg, sample) <= avg || next_avg(avg, sample) <= sample,
{
}

/// Whatever is recorded, in whatever order, the average stays under every bound that holds of
/// where it started and of all the samples.
pub proof fn average_respects_bounds(avg: nat, spans: Seq<nat>, bound: nat)
    requires
        avg <= bound,
        forall|i: int| 0 <= i < spans.len() ==> sample_ns(#[trigger] spans[i]) <= bound,
    ensures
        avg_after(avg, spans) <= bound,
    decreases spans.len(),
{
    if spans.len() > 0 {
        average_respects_bounds(avg, spans.drop_last(), bound);
        average_moves_towards_larger_samples(
            avg_after(avg, spans.drop_last()),
            sample_ns(spans.last()),
        );
    }
}

/// Recording more spans never lowers the average, and until a sample that is not zero arrives it
/// stays at zero.
pub proof fn average_grows_with_history(avg: nat, spans: Seq<nat>)
    ensures
        avg <= avg_after(avg, spans),
        avg == 0 && (forall|i: int| 0 <= i < spans.len() ==> sample_ns(#[trigger] spans[i]) == 0)
            ==> avg_after(avg, spans) == 0,
    decreases spans.len(),
{
    if spans.len() > 0 {
        average_grows_with_history(avg, spans.drop_last());
    }
}

/// A longer sample never gives a smaller average.
pub proof fn longer_samples_give_larger_averages(avg: nat, shorter: nat, longer: nat)
    requires
        shorter <= longer,
    ensures
        next_avg(avg, shorter) <= next_avg(avg, longer),
{
}

/// The average is at least the first sample that is not zero.
pub proof fn average_is_at_least_the_first_sample(spans: Seq<nat>, first: int)
    requires
        0 <= first < spans.len(),
        forall|i: int| 0 <= i < first ==> sample_ns(#[trigger] spans[i]) == 0,
    ensures
        sample_ns(spans[first]) <= avg_after(0, spans),
    decreases spans.len(),
{
    if first < spans.len() - 1 {
        average_is_at_least_the_first_sample(spans.drop_last(), first);
    } else {
        average_grows_with_history(0, spans.drop_last());
    }
}

/// What a sample does to the average, in numbers: nothing has been recorded, and it is the average;
/// it does not exceed the average, which stays; or an eighth of what it exceeds the average by is
/// added, rounded down.
pub proof fn average_takes_an_eighth_of_the_excess(avg: nat, sample: nat)
    ensures
        avg == 0 ==> next_avg(avg, sample) == sample,
        0 < avg && sample <= avg ==> next_avg(avg, sample) == avg,
        0 < avg < sample ==> 8 * (next_avg(avg, sample) - avg) <= sample - avg < 8 * (next_avg(
            avg,
            sample,
        ) - avg) + 8,
{
}

/// A sample is a span up to multiples of the machine word, so every span below it is taken whole.
pub proof fn samples_keep_their_low_bits(nanos: nat)
    ensures
        sample_ns(nanos) < 0x1_0000_0000_0000_0000,
        (nanos - sample_ns(nanos)) % 0x1_0000_0000_0000_0000 == 0,
        nanos < 0x1_0000_0000_0000_0000 ==> sample_ns(nanos) == nanos,
{
}

/// Recording one more span changes the average by that span's sample alone.
pub proof fn history_is_recorded_span_by_span(avg: nat, spans: Seq<nat>, span: nat)
    ensures
        avg_after(avg, seq![]) == avg,
        avg_after(avg, spans.push(span)) == next_avg(
            avg_after(avg, spans),
            span % 0x1_0000_0000_0000_0000,
        ),
{
    assert(spans.push(span).drop_last() == spans);
}

/// A second has a thousand million nanoseconds, and a millisecond has a million.
pub proof fn units_of_time()
    ensures
        NANOS_PER_SEC == 1_000_000_000,
        NANOS_PER_MILLI == 1_000_000,
{
}

} // verus!
