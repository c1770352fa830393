//! Scheduled events and the rendering pipeline.
//!
//! A [`Timeline`] owns an ordered list of [`ScheduledEvent`]s. Rendering
//! allocates a zero-filled buffer long enough to cover the latest event end
//! plus a trailing silence, then adds every event's oscillator output into
//! the buffer over the event's sample range. Contributions are additive, so
//! overlapping events mix and the event order never changes the result.
//!
//! Times are in microseconds, frequencies in millihertz, amplitudes in the
//! fixed-point scale of [`crate::oscillator::MAX_AMPLITUDE`].

use crate::oscillator::{lemma_wave_amp_range, wave_amp, wave_sample, WaveShape, MAX_AMPLITUDE};
use crate::pitch::{frequency_millihertz, frequency_millihertz_spec, MAX_PITCH_SEMITONES};
use vstd::arithmetic::div_mod::{
    lemma_basic_div, lemma_div_by_multiple, lemma_div_is_ordered, lemma_div_pos_is_pos,
    lemma_fundamental_div_mod,
};
use vstd::arithmetic::mul::{
    lemma_mul_is_commutative, lemma_mul_is_distributive_add,
};
use vstd::prelude::*;

verus! {

/// Most events a timeline accepts for rendering; it keeps the additive mix
/// of full-scale amplitudes within `i64` for every sample.
pub const MAX_EVENTS: u64 = 0x4000_0000_0000;

/// One scheduled tone: a wave shape, an onset and a duration in
/// microseconds, and a pitch in semitones from A4. Immutable once created.
#[derive(Clone, Copy, PartialEq, Eq, Structural, Debug)]
pub struct ScheduledEvent {
    pub shape: WaveShape,
    pub start_us: u64,
    pub duration_us: u64,
    pub pitch: i32,
}

/// An event is well formed when its end time fits the microsecond scale and
/// its pitch is one the frequency mapping accepts.
pub open spec fn event_wf(ev: ScheduledEvent) -> bool {
    &&& ev.start_us + ev.duration_us <= u64::MAX
    &&& ev.pitch <= MAX_PITCH_SEMITONES
}

/// Index of the first sample an event writes: `floor(rate * start / 10^6)`.
pub open spec fn first_sample_index(ev: ScheduledEvent, rate: int) -> int {
    (rate * ev.start_us) / 1000000
}

/// Number of samples an event spans: `floor(rate * duration / 10^6)`.
pub open spec fn event_sample_count(ev: ScheduledEvent, rate: int) -> int {
    (rate * ev.duration_us) / 1000000
}

/// One past the last sample an event writes.
pub open spec fn last_sample_index(ev: ScheduledEvent, rate: int) -> int {
    first_sample_index(ev, rate) + event_sample_count(ev, rate)
}

/// The amplitude an event alone contributes to sample `i` of a render at
/// `rate` Hz: its oscillator evaluated at the event-local sample index
/// inside the event's sample range, silence outside it.
pub open spec fn event_amp_at(ev: ScheduledEvent, rate: int, i: int) -> int {
    if first_sample_index(ev, rate) <= i < last_sample_index(ev, rate) {
        wave_amp(
            ev.shape,
            i - first_sample_index(ev, rate),
            frequency_millihertz_spec(ev.pitch as int),
            rate,
        )
    } else {
        0
    }
}

/// The additive mix of a sequence of events at sample `i`: the sum of every
/// event's own contribution, in event order.
pub open spec fn mixed_amp(events: Seq<ScheduledEvent>, rate: int, i: int) -> int
    decreases events.len(),
{
    if events.len() == 0 {
        0
    } else {
        mixed_amp(events.drop_last(), rate, i) + event_amp_at(events.last(), rate, i)
    }
}

/// Latest event end time in microseconds, 0 for an empty sequence.
pub open spec fn max_end_us_spec(events: Seq<ScheduledEvent>) -> int
    decreases events.len(),
{
    if events.len() == 0 {
        0
    } else {
        let rest = max_end_us_spec(events.drop_last());
        let end = events.last().start_us + events.last().duration_us;
        if end > rest {
            end
        } else {
            rest
        }
    }
}

/// Length of the buffer a render allocates: the latest event end plus the
/// trailing silence, converted to samples with truncation.
pub open spec fn buffer_len_spec(events: Seq<ScheduledEvent>, rate: int, silence_us: int) -> int {
    (rate * (max_end_us_spec(events) + silence_us)) / 1000000
}

/// Contribution of the first `upto` samples of one event: the prefix of the
/// event's sample range that an in-progress render has already added.
spec fn partial_amp(ev: ScheduledEvent, rate: int, upto: int, i: int) -> int {
    if first_sample_index(ev, rate) <= i < first_sample_index(ev, rate) + upto {
        wave_amp(
            ev.shape,
            i - first_sample_index(ev, rate),
            frequency_millihertz_spec(ev.pitch as int),
            rate,
        )
    } else {
        0
    }
}

/// A single event never contributes more than one full-scale amplitude.
pub proof fn lemma_event_amp_bound(ev: ScheduledEvent, rate: int, i: int)
    requires
        rate >= 1,
    ensures
        -MAX_AMPLITUDE <= event_amp_at(ev, rate, i) <= MAX_AMPLITUDE,
{
    if first_sample_index(ev, rate) <= i < last_sample_index(ev, rate) {
        lemma_wave_amp_range(
            ev.shape,
            i - first_sample_index(ev, rate),
            frequency_millihertz_spec(ev.pitch as int),
            rate,
        );
    }
}

/// The additive mix of `n` events stays within `n` full-scale amplitudes,
/// so a 64-bit accumulator cannot overflow below `MAX_EVENTS` events.
pub proof fn lemma_mixed_amp_bound(events: Seq<ScheduledEvent>, rate: int, i: int)
    requires
        rate >= 1,
    ensures
        -(events.len() * MAX_AMPLITUDE) <= mixed_amp(events, rate, i) <= events.len()
            * MAX_AMPLITUDE,
    decreases events.len(),
{
    if events.len() > 0 {
        lemma_mixed_amp_bound(events.drop_last(), rate, i);
        lemma_event_amp_bound(events.last(), rate, i);
    }
}

/// Each event ends at or before the latest end time of its sequence.
proof fn lemma_event_end_le_max(events: Seq<ScheduledEvent>, j: int)
    requires
        0 <= j < events.len(),
    ensures
        events[j].start_us + events[j].duration_us <= max_end_us_spec(events),
    decreases events.len(),
{
    if j < events.len() - 1 {
        lemma_event_end_le_max(events.drop_last(), j);
        assert(events.drop_last()[j] == events[j]);
    }
}

/// Sums of floors never exceed the floor of the sum:
/// `x/d + y/d <= (x + y)/d` for nonnegative operands.
proof fn lemma_div_sum_le(x: int, y: int, d: int)
    requires
        x >= 0,
        y >= 0,
        d >= 1,
    ensures
        x / d + y / d <= (x + y) / d,
{
    lemma_fundamental_div_mod(x, d);
    lemma_fundamental_div_mod(y, d);
    lemma_div_pos_is_pos(x, d);
    lemma_div_pos_is_pos(y, d);
    let q = x / d + y / d;
    assert(d * q == d * (x / d) + d * (y / d)) by {
        lemma_mul_is_distributive_add(d, x / d, y / d);
    }
    lemma_div_is_ordered(d * q, x + y, d);
    assert((d * q) / d == q) by {
        lemma_mul_is_commutative(d, q);
        lemma_div_by_multiple(q, d);
    }
}

/// Every sample an event writes lies inside the buffer the render sizes for
/// its sequence: the bounds check of the rendering loop can never fail.
proof fn lemma_event_fits(events: Seq<ScheduledEvent>, j: int, rate: int, silence_us: int)
    requires
        0 <= j < events.len(),
        rate >= 1,
        silence_us >= 0,
    ensures
        last_sample_index(events[j], rate) <= buffer_len_spec(events, rate, silence_us),
{
    let ev = events[j];
    let a = rate * ev.start_us;
    let b = rate * ev.duration_us;
    assert(a >= 0 && b >= 0) by (nonlinear_arith)
        requires
            rate >= 1,
            ev.start_us >= 0,
            ev.duration_us >= 0,
            a == rate * ev.start_us,
            b == rate * ev.duration_us,
    ;
    lemma_div_sum_le(a, b, 1000000);
    assert(a + b == rate * (ev.start_us + ev.duration_us)) by {
        lemma_mul_is_distributive_add(rate, ev.start_us as int, ev.duration_us as int);
    }
    lemma_event_end_le_max(events, j);
    let total = max_end_us_spec(events) + silence_us;
    assert(rate * (ev.start_us + ev.duration_us) <= rate * total) by (nonlinear_arith)
        requires
            rate >= 1,
            ev.start_us + ev.duration_us <= total,
    ;
    lemma_div_is_ordered(rate * (ev.start_us + ev.duration_us), rate * total, 1000000);
}

/// An ordered collection of scheduled events, rendered by additive mixing.
pub struct Timeline {
    events: Vec<ScheduledEvent>,
}

impl View for Timeline {
    type V = Seq<ScheduledEvent>;

    closed spec fn view(&self) -> Seq<ScheduledEvent> {
        self.events@
    }
}

impl Timeline {
    /// Every held event is well formed.
    pub open spec fn wf(&self) -> bool {
        forall|j: int| 0 <= j < self@.len() ==> event_wf(#[trigger] self@[j])
    }

    /// Creates an empty timeline.
    pub fn new() -> (t: Timeline)
        ensures
            t@ == Seq::<ScheduledEvent>::empty(),
            t.wf(),
    {
        Timeline { events: Vec::new() }
    }

    /// Appends one scheduled event. The end time must fit the microsecond
    /// scale and the pitch must be at most `MAX_PITCH_SEMITONES`; both are
    /// machine limits of the representation, not musical rules.
    pub fn append_event(&mut self, shape: WaveShape, start_us: u64, duration_us: u64, pitch: i32)
        requires
            old(self).wf(),
            start_us + duration_us <= u64::MAX,
            pitch <= MAX_PITCH_SEMITONES,
        ensures
            final(self)@ == old(self)@.push(
                ScheduledEvent { shape, start_us, duration_us, pitch },
            ),
            final(self).wf(),
    {
        self.events.push(ScheduledEvent { shape, start_us, duration_us, pitch });
        proof {
            let evs = self@;
            assert forall|j: int| 0 <= j < evs.len() implies event_wf(#[trigger] evs[j]) by {
                if j < evs.len() - 1 {
                    assert(evs[j] == old(self)@[j]);
                    assert(event_wf(old(self)@[j]));
                }
            }
        }
    }

    /// Number of events held.
    pub fn len(&self) -> (n: usize)
        ensures
            n == self@.len(),
    {
        self.events.len()
    }

    /// Latest event end time in microseconds; 0 when the timeline is empty.
    pub fn max_end_us(&self) -> (end: u64)
        requires
            self.wf(),
        ensures
            end == max_end_us_spec(self@),
    {
        let mut m: u64 = 0;
        let mut j: usize = 0;
        while j < self.events.len()
            invariant
                j <= self.events.len(),
                self.wf(),
                m == max_end_us_spec(self@.take(j as int)),
            decreases self.events.len() - j,
        {
            let ev = self.events[j];
            proof {
                assert(event_wf(self@[j as int]));
                assert(self@.take(j as int + 1).drop_last() =~= self@.take(j as int));
                assert(self@.take(j as int + 1).last() == self@[j as int]);
            }
            let end = ev.start_us + ev.duration_us;
            if end > m {
                m = end;
            }
            j = j + 1;
        }
        proof {
            assert(self@.take(self@.len() as int) =~= self@);
        }
        m
    }

    /// Number of samples a render of this timeline allocates: the latest
    /// event end plus the trailing silence, truncated to whole samples.
    pub fn num_samples(&self, sample_rate: u32, trailing_silence_us: u64) -> (n: usize)
        requires
            self.wf(),
            sample_rate >= 1,
            buffer_len_spec(self@, sample_rate as int, trailing_silence_us as int) <= usize::MAX,
        ensures
            n == buffer_len_spec(self@, sample_rate as int, trailing_silence_us as int),
    {
        let max_end = self.max_end_us();
        let total: u128 = (max_end as u128) + (trailing_silence_us as u128);
        proof {
            assert((sample_rate as int) * (total as int) <= u128::MAX) by (nonlinear_arith)
                requires
                    0 <= sample_rate <= u32::MAX,
                    0 <= total <= 0x20000000000000000,
            ;
        }
        let n128: u128 = (sample_rate as u128) * total / 1000000;
        n128 as usize
    }

    /// Renders the timeline at `sample_rate` Hz into a fixed-point sample
    /// buffer: a zero-filled buffer sized by [`Self::num_samples`] into
    /// which every event adds its oscillator output over its sample range.
    /// Every sample of the result is exactly the additive mix of all
    /// events' contributions, so the result depends on nothing but the
    /// events, the rate and the silence, and event order does not matter.
    ///
    /// The two size preconditions are machine limits: the buffer must fit
    /// in memory, and the mix of full-scale amplitudes must fit in `i64`.
    pub fn render(&self, sample_rate: u32, trailing_silence_us: u64) -> (wave: Vec<i64>)
        requires
            self.wf(),
            sample_rate >= 1,
            buffer_len_spec(self@, sample_rate as int, trailing_silence_us as int) <= usize::MAX,
            self@.len() <= MAX_EVENTS,
        ensures
            wave@.len() == buffer_len_spec(self@, sample_rate as int, trailing_silence_us as int),
            forall|i: int|
                0 <= i < wave@.len() ==> wave@[i] == mixed_amp(self@, sample_rate as int, i),
    {
        let ghost rate = sample_rate as int;
        let len = self.num_samples(sample_rate, trailing_silence_us);
        let mut wave: Vec<i64> = Vec::new();
        while wave.len() < len
            invariant
                wave@.len() <= len,
                forall|i: int| 0 <= i < wave@.len() ==> wave@[i] == 0,
            decreases len - wave@.len(),
        {
            wave.push(0i64);
        }
        let nev = self.events.len();
        proof {
            assert(self@.take(0) =~= Seq::<ScheduledEvent>::empty());
        }
        let mut j: usize = 0;
        while j < nev
            invariant
                j <= nev,
                nev == self@.len(),
                self.wf(),
                sample_rate >= 1,
                rate == sample_rate as int,
                self@.len() <= MAX_EVENTS,
                wave@.len() == len,
                len == buffer_len_spec(self@, rate, trailing_silence_us as int),
                forall|i: int|
                    0 <= i < wave@.len() ==> wave@[i] == mixed_amp(self@.take(j as int), rate, i),
            decreases nev - j,
        {
            let ev = self.events[j];
            proof {
                assert(event_wf(self@[j as int]));
                lemma_event_fits(self@, j as int, rate, trailing_silence_us as int);
                assert(
                    (sample_rate as int) * (ev.start_us as int) <= u128::MAX
                    && (sample_rate as int) * (ev.start_us as int) >= 0
                    && (sample_rate as int) * (ev.duration_us as int) <= u128::MAX
                    && (sample_rate as int) * (ev.duration_us as int) >= 0
                ) by (nonlinear_arith)
                    requires
                        1 <= sample_rate <= u32::MAX,
                        0 <= ev.start_us <= u64::MAX,
                        0 <= ev.duration_us <= u64::MAX,
                ;
                lemma_div_pos_is_pos((sample_rate as int) * (ev.start_us as int), 1000000);
                lemma_div_pos_is_pos((sample_rate as int) * (ev.duration_us as int), 1000000);
            }
            let first128: u128 = (sample_rate as u128) * (ev.start_us as u128) / 1000000;
            let count128: u128 = (sample_rate as u128) * (ev.duration_us as u128) / 1000000;
            let first: usize = first128 as usize;
            let count: usize = count128 as usize;
            let freq: u64 = frequency_millihertz(ev.pitch);
            let mut s: usize = 0;
            while s < count
                invariant
                    s <= count,
                    j < nev,
                    nev == self@.len(),
                    self.wf(),
                    sample_rate >= 1,
                    rate == sample_rate as int,
                    self@.len() <= MAX_EVENTS,
                    wave@.len() == len,
                    ev == self@[j as int],
                    first == first_sample_index(ev, rate),
                    count == event_sample_count(ev, rate),
                    first + count <= len,
                    freq == frequency_millihertz_spec(ev.pitch as int),
                    freq < crate::oscillator::MAX_FREQ_MHZ,
                    forall|i: int|
                        0 <= i < wave@.len() ==> wave@[i] == mixed_amp(self@.take(j as int), rate, i)
                            + partial_amp(ev, rate, s as int, i),
                decreases count - s,
            {
                let idx: usize = first + s;
                let level = wave_sample(ev.shape, s, freq, sample_rate);
                proof {
                    lemma_mixed_amp_bound(self@.take(j as int), rate, idx as int);
                    assert(self@.take(j as int).len() == j as int);
                    assert(partial_amp(ev, rate, s as int, idx as int) == 0);
                }
                let cur: i64 = wave[idx];
                wave.set(idx, cur + level);
                let ghost prev_s = s as int;
                s = s + 1;
                proof {
                    assert forall|i: int| 0 <= i < wave@.len() implies wave@[i] == mixed_amp(
                        self@.take(j as int),
                        rate,
                        i,
                    ) + partial_amp(ev, rate, s as int, i) by {
                        if i == idx as int {
                            assert(wave@[i] == cur + level);
                            assert(i - first_sample_index(ev, rate) == prev_s);
                        }
                    }
                }
            }
            proof {
                assert(self@.take(j as int + 1).drop_last() =~= self@.take(j as int));
                assert(self@.take(j as int + 1).last() == self@[j as int]);
                assert forall|i: int| 0 <= i < wave@.len() implies wave@[i] == mixed_amp(
                    self@.take(j as int + 1),
                    rate,
                    i,
                ) by {
                    assert(wave@[i] == mixed_amp(self@.take(j as int), rate, i) + partial_amp(
                        ev,
                        rate,
                        count as int,
                        i,
                    ));
                    assert(partial_amp(ev, rate, count as int, i) == event_amp_at(ev, rate, i));
                }
            }
            j = j + 1;
        }
        proof {
            assert(self@.take(self@.len() as int) =~= self@);
        }
        wave
    }

    /// Renders like [`Self::render`], but checks the machine limits at run
    /// time instead of demanding them: `None` exactly when the sample rate
    /// is zero, the buffer would not fit in memory, or the timeline holds
    /// more than `MAX_EVENTS` events.
    pub fn try_render(&self, sample_rate: u32, trailing_silence_us: u64) -> (result: Option<
        Vec<i64>,
    >)
        requires
            self.wf(),
        ensures
            result is Some <==> (sample_rate >= 1 && buffer_len_spec(
                self@,
                sample_rate as int,
                trailing_silence_us as int,
            ) <= usize::MAX && self@.len() <= MAX_EVENTS),
            result matches Some(wave) ==> wave@.len() == buffer_len_spec(
                self@,
                sample_rate as int,
                trailing_silence_us as int,
            ) && (forall|i: int|
                0 <= i < wave@.len() ==> wave@[i] == mixed_amp(self@, sample_rate as int, i)),
    {
        if sample_rate < 1 {
            return None;
        }
        let max_end = self.max_end_us();
        let total: u128 = (max_end as u128) + (trailing_silence_us as u128);
        proof {
            assert((sample_rate as int) * (total as int) <= u128::MAX) by (nonlinear_arith)
                requires
                    0 <= sample_rate <= u32::MAX,
                    0 <= total <= 0x20000000000000000,
            ;
        }
        let n128: u128 = (sample_rate as u128) * total / 1000000;
        if n128 > usize::MAX as u128 {
            return None;
        }
        if self.events.len() as u64 > MAX_EVENTS {
            return None;
        }
        Some(self.render(sample_rate, trailing_silence_us))
    }
}

/// Additive mixing law: the mix of two event sequences, one after the
/// other, is the sample-wise sum of the two mixes. In particular the
/// buffer of fully overlapping events is the sample-wise sum of each
/// event's independent render.
pub proof fn lemma_additive_mixing(
    a: Seq<ScheduledEvent>,
    b: Seq<ScheduledEvent>,
    rate: int,
    i: int,
)
    ensures
        mixed_amp(a + b, rate, i) == mixed_amp(a, rate, i) + mixed_amp(b, rate, i),
    decreases b.len(),
{
    if b.len() == 0 {
        assert(a + b =~= a);
    } else {
        lemma_additive_mixing(a, b.drop_last(), rate, i);
        assert((a + b).drop_last() =~= a + b.drop_last());
        assert((a + b).last() == b.last());
    }
}

/// Event order never changes the mix: contributions are additive and
/// addition commutes, so two groups of events can trade places.
pub proof fn lemma_mixing_order_irrelevant(
    a: Seq<ScheduledEvent>,
    b: Seq<ScheduledEvent>,
    rate: int,
    i: int,
)
    ensures
        mixed_amp(a + b, rate, i) == mixed_amp(b + a, rate, i),
{
    lemma_additive_mixing(a, b, rate, i);
    lemma_additive_mixing(b, a, rate, i);
}

/// A sample that lies outside every event's range is silent.
pub proof fn lemma_mixed_silent(events: Seq<ScheduledEvent>, rate: int, i: int)
    requires
        forall|j: int|
            0 <= j < events.len() ==> !(first_sample_index(#[trigger] events[j], rate) <= i
                < last_sample_index(events[j], rate)),
    ensures
        mixed_amp(events, rate, i) == 0,
    decreases events.len(),
{
    if events.len() > 0 {
        assert forall|j: int| 0 <= j < events.drop_last().len() implies !(first_sample_index(
            #[trigger] events.drop_last()[j],
            rate,
        ) <= i < last_sample_index(events.drop_last()[j], rate)) by {
            assert(events.drop_last()[j] == events[j]);
        }
        lemma_mixed_silent(events.drop_last(), rate, i);
        assert(events.last() == events[events.len() - 1]);
    }
}

/// Rendering a single event yields exactly that event's own contribution
/// at every sample.
pub proof fn lemma_single_event_mix(ev: ScheduledEvent, rate: int, i: int)
    ensures
        mixed_amp(seq![ev], rate, i) == event_amp_at(ev, rate, i),
{
    assert(seq![ev].drop_last() =~= Seq::<ScheduledEvent>::empty());
    assert(seq![ev].last() == ev);
    assert(mixed_amp(Seq::<ScheduledEvent>::empty(), rate, i) == 0);
}

/// Non-overlap law: at a sample where one of two events is inactive, the
/// mix of both equals the active event's independent render, sample for
/// sample.
pub proof fn lemma_non_overlapping_regions(
    e1: ScheduledEvent,
    e2: ScheduledEvent,
    rate: int,
    i: int,
)
    ensures
        !(first_sample_index(e2, rate) <= i < last_sample_index(e2, rate))
            ==> mixed_amp(seq![e1, e2], rate, i) == mixed_amp(seq![e1], rate, i),
        !(first_sample_index(e1, rate) <= i < last_sample_index(e1, rate))
            ==> mixed_amp(seq![e1, e2], rate, i) == mixed_amp(seq![e2], rate, i),
{
    assert(seq![e1, e2].drop_last() =~= seq![e1]);
    assert(seq![e1].drop_last() =~= Seq::<ScheduledEvent>::empty());
    assert(seq![e2].drop_last() =~= Seq::<ScheduledEvent>::empty());
    assert(seq![e1, e2].last() == e2);
    assert(seq![e1].last() == e1);
    assert(seq![e2].last() == e2);
    assert(mixed_amp(Seq::<ScheduledEvent>::empty(), rate, i) == 0);
    assert(mixed_amp(seq![e1], rate, i) == event_amp_at(e1, rate, i));
    assert(mixed_amp(seq![e2], rate, i) == event_amp_at(e2, rate, i));
    assert(mixed_amp(seq![e1, e2], rate, i) == event_amp_at(e1, rate, i) + event_amp_at(
        e2,
        rate,
        i,
    ));
}

/// Determinism law: the render contract pins every sample of the result,
/// so any two buffers that satisfy it for the same events, rate and
/// silence are identical, bit for bit.
pub proof fn lemma_render_deterministic(
    events: Seq<ScheduledEvent>,
    rate: int,
    silence_us: int,
    w1: Seq<i64>,
    w2: Seq<i64>,
)
    requires
        w1.len() == buffer_len_spec(events, rate, silence_us),
        forall|i: int| 0 <= i < w1.len() ==> w1[i] == mixed_amp(events, rate, i),
        w2.len() == buffer_len_spec(events, rate, silence_us),
        forall|i: int| 0 <= i < w2.len() ==> w2[i] == mixed_amp(events, rate, i),
    ensures
        w1 == w2,
{
    assert(w1 =~= w2);
}

/// Empty-timeline law: with no events the buffer length comes from the
/// trailing silence alone — zero samples for zero silence — and every
/// sample is silent.
pub proof fn lemma_empty_timeline_render(rate: int, silence_us: int, i: int)
    requires
        rate >= 1,
        silence_us >= 0,
    ensures
        buffer_len_spec(Seq::<ScheduledEvent>::empty(), rate, silence_us) == (rate * silence_us)
            / 1000000,
        silence_us == 0 ==> buffer_len_spec(Seq::<ScheduledEvent>::empty(), rate, 0) == 0,
        mixed_amp(Seq::<ScheduledEvent>::empty(), rate, i) == 0,
{
    if silence_us == 0 {
        lemma_basic_div(0, 1000000);
    }
}

} // verus!
