//! Metronome: a click generator driven by a beat and bar counter.
//!
//! Each beat a sawtooth oscillator excites a short ring buffer, which then
//! rings as a one-tap Karplus-Strong loop with a fixed decay. The first beat
//! of a bar plays through a shorter buffer, so the downbeat sounds higher.
//! Samples are 16-bit, with full scale at 32767.

use crate::util::AudioContext;
use std::collections::VecDeque;
use vstd::prelude::*;

verus! {

pub enum Control {
    BeatsPerMinute(u32),
    BeatsPerBar(u32),
}

/// The settings of the metronome, as a control surface shows them.
#[derive(Clone, Copy, Debug)]
pub struct MetronomeConfig {
    pub beats_per_minute: u32,
    pub beats_per_bar: u32,
}

impl Default for MetronomeConfig {
    fn default() -> (config: Self)
        ensures
            config.beats_per_minute == 120,
            config.beats_per_bar == 4,
    {
        Self { beats_per_minute: 120, beats_per_bar: 4 }
    }
}

/// The decay of the loop, in units of 1/65536.
pub const DECAY: i32 = 27500;

/// The length of the ring buffer on an ordinary beat.
pub const DELAY_FRAMES: usize = 68;

/// By how much the buffer is shorter on the first beat of a bar.
pub const DELAY_DETUNE: usize = 10;

/// The peak of the sawtooth.
pub const SAW_PEAK: i32 = 0x7fff;

/// A sawtooth oscillator as a mathematical value.
pub struct Saw {
    pub value: int,
    pub slope: int,
}

impl Saw {
    /// The value stays within the peaks, and no step is longer than the
    /// distance between them.
    pub open spec fn wf(self) -> bool {
        &&& -SAW_PEAK <= self.value <= SAW_PEAK
        &&& -2 * SAW_PEAK <= self.slope <= 2 * SAW_PEAK
    }

    /// One step along the slope; at a peak the wave is reflected and the
    /// slope changes sign.
    pub open spec fn next(self) -> Saw {
        let spl = self.value + self.slope;
        if -SAW_PEAK < spl < SAW_PEAK {
            Saw { value: spl, slope: self.slope }
        } else if spl > 0 {
            Saw { value: 2 * SAW_PEAK - spl, slope: -self.slope }
        } else {
            Saw { value: -2 * SAW_PEAK - spl, slope: -self.slope }
        }
    }

    /// The oscillator after `n` steps.
    pub open spec fn run(self, n: nat) -> Saw
        decreases n,
    {
        if n == 0 {
            self
        } else {
            self.run((n - 1) as nat).next()
        }
    }

    /// A well-formed oscillator stays well formed.
    pub proof fn lemma_run_wf(self, n: nat)
        requires
            self.wf(),
        ensures
            self.run(n).wf(),
        decreases n,
    {
        if n > 0 {
            self.lemma_run_wf((n - 1) as nat);
        }
    }
}

pub struct Sawtooth {
    value: i32,
    step: i32,
}

impl View for Sawtooth {
    type V = Saw;

    closed spec fn view(&self) -> Saw {
        Saw { value: self.value as int, slope: self.step as int }
    }
}

impl Sawtooth {
    /// An oscillator at rest that covers four times the full scale in
    /// `period` steps. It is well formed from a period of 5 on.
    pub fn new(period: u32) -> (s: Self)
        requires
            period > 0,
        ensures
            s@.value == 0,
            s@.slope == 0x40000int / (period as int),
            s@.wf() <==> period >= 5,
    {
        let step: u32 = 4 * 0x10000 / period;
        assert(0x40000int / (period as int) <= 2 * SAW_PEAK <==> period >= 5) by (nonlinear_arith)
            requires
                period > 0,
        ;
        Self { value: 0, step: step as i32 }
    }

    /// Advance the oscillator and return its new value.
    pub fn step(&mut self) -> (spl: i16)
        requires
            old(self)@.wf(),
        ensures
            final(self)@ == old(self)@.next(),
            final(self)@.wf(),
            spl == final(self)@.value,
    {
        let spl: i32 = self.value + self.step;
        if -SAW_PEAK < spl && spl < SAW_PEAK {
            self.value = spl;
        } else {
            self.value = if spl > 0 {
                2 * SAW_PEAK - spl
            } else {
                -2 * SAW_PEAK - spl
            };
            self.step = -self.step;
        }
        self.value as i16
    }
}

/// The sum of two samples, held within the 16-bit range.
pub open spec fn saturated(x: int) -> i16 {
    if x > i16::MAX {
        i16::MAX
    } else if x < i16::MIN {
        i16::MIN
    } else {
        x as i16
    }
}

/// `buffer` cut or padded with zeros to `n` samples.
pub open spec fn resized(buffer: Seq<i16>, n: nat) -> Seq<i16> {
    if n <= buffer.len() {
        buffer.subrange(0, n as int)
    } else {
        buffer + Seq::new((n - buffer.len()) as nat, |i: int| 0i16)
    }
}

/// The buffer as a beat finds it: short on the first beat of a bar, long
/// on the second, unchanged on the others.
pub open spec fn retuned(buffer: Seq<i16>, beat: u32) -> Seq<i16> {
    if beat == 0 {
        resized(buffer, (DELAY_FRAMES - DELAY_DETUNE) as nat)
    } else if beat == 1 {
        resized(buffer, DELAY_FRAMES as nat)
    } else {
        buffer
    }
}

/// The buffer with one sawtooth sample added to each of its samples, in
/// order.
pub open spec fn excited(buffer: Seq<i16>, saw: Saw) -> Seq<i16> {
    Seq::new(buffer.len(), |i: int| saturated(buffer[i] + saw.run((i + 1) as nat).value))
}

/// The sample that the loop makes of its two oldest samples.
pub open spec fn plucked(a: i16, b: i16) -> i16 {
    ((DECAY * (a + b)) / 65536) as i16
}

/// The metronome as a mathematical value.
pub struct MetronomeView {
    pub sfreq: u32,
    pub beats_per_minute: u32,
    pub beats_per_bar: u32,
    pub buffer: Seq<i16>,
    pub saw: Saw,
    pub frames_until_next_beat: u32,
    pub beat: u32,
}

/// The beat once the bar has `beats_per_bar` beats: a beat beyond the end
/// of the new bar is counted from the start of a bar again. A bar without a
/// beat leaves it alone.
pub open spec fn rebarred(beat: u32, beats_per_bar: u32) -> u32 {
    if beats_per_bar > 0 {
        (beat % beats_per_bar) as u32
    } else {
        beat
    }
}

/// A beat brought back into a bar lies within it, and the first beat
/// stays the first.
pub proof fn lemma_rebarred(beat: u32, beats_per_bar: u32)
    requires
        beats_per_bar > 0,
    ensures
        rebarred(beat, beats_per_bar) < beats_per_bar,
        rebarred(beat, beats_per_bar) == beat % beats_per_bar,
        beat < beats_per_bar ==> rebarred(beat, beats_per_bar) == beat,
{
    vstd::arithmetic::div_mod::lemma_mod_bound(beat as int, beats_per_bar as int);
    if beat < beats_per_bar {
        vstd::arithmetic::div_mod::lemma_small_mod(beat as nat, beats_per_bar as nat);
    }
}

impl MetronomeView {
    /// The beat lies within the bar, if the bar has a length. The buffer is
    /// empty only before the first beat, and has one of its two lengths from
    /// then on.
    pub open spec fn wf(self) -> bool {
        &&& self.saw.wf()
        &&& self.beat < u32::MAX
        &&& self.beats_per_bar > 0 ==> self.beat < self.beats_per_bar
        &&& {
            ||| self.buffer.len() == DELAY_FRAMES
            ||| self.buffer.len() == DELAY_FRAMES - DELAY_DETUNE
            ||| (self.buffer.len() == 0 && self.frames_until_next_beat == 0 && self.beat == 0)
        }
    }

    /// The tempo gives a beat period of at least one sample that fits the
    /// counter, and a bar has a beat.
    pub open spec fn tempo_valid(self) -> bool {
        &&& 0 < self.beats_per_minute <= self.sfreq * 60 <= u32::MAX
        &&& 0 < self.beats_per_bar
    }

    /// A beat is due.
    pub open spec fn at_beat(self) -> bool {
        self.frames_until_next_beat == 0
    }

    /// What a beat does: retune the buffer, reload the frame counter with
    /// the beat period `sfreq * 60 / beats_per_minute`, count the beat within
    /// the bar and excite the buffer.
    pub open spec fn beat_started(self) -> MetronomeView {
        let buffer = retuned(self.buffer, self.beat);
        MetronomeView {
            buffer: excited(buffer, self.saw),
            saw: self.saw.run(buffer.len()),
            frames_until_next_beat: ((self.sfreq * 60) / (self.beats_per_minute as int)) as u32,
            beat: ((self.beat + 1) % (self.beats_per_bar as int)) as u32,
            ..self
        }
    }

    /// What every sample does: the loop drops its oldest sample and
    /// appends the decayed sum of its two oldest.
    pub open spec fn rung(self) -> MetronomeView {
        MetronomeView {
            buffer: self.buffer.drop_first().push(plucked(self.buffer[0], self.buffer[1])),
            frames_until_next_beat: (self.frames_until_next_beat - 1) as u32,
            ..self
        }
    }

    /// One sample.
    pub open spec fn next(self) -> MetronomeView {
        if self.at_beat() {
            self.beat_started().rung()
        } else {
            self.rung()
        }
    }

    /// The metronome after `n` samples.
    pub open spec fn run(self, n: nat) -> MetronomeView
        decreases n,
    {
        if n == 0 {
            self
        } else {
            self.run((n - 1) as nat).next()
        }
    }

    /// The first `n` samples.
    pub open spec fn samples(self, n: nat) -> Seq<i16> {
        Seq::new(n, |i: int| self.run((i + 1) as nat).buffer.last())
    }

    /// `n` samples can be made without a beat that finds no valid tempo.
    pub open spec fn can_run(self, n: nat) -> bool {
        self.tempo_valid() || n <= self.frames_until_next_beat
    }

    /// One sample keeps the metronome well formed, and its settings.
    pub proof fn lemma_next_wf(self)
        requires
            self.wf(),
            self.can_run(1),
        ensures
            self.next().wf(),
            self.next().sfreq == self.sfreq,
            self.next().beats_per_minute == self.beats_per_minute,
            self.next().beats_per_bar == self.beats_per_bar,
            self.next().buffer.len() >= 2,
            self.at_beat() || self.next().frames_until_next_beat + 1
                == self.frames_until_next_beat,
            self.at_beat() ==> self.next().beat < self.beats_per_bar,
            self.can_run(2) ==> self.next().can_run(1),
    {
        if self.at_beat() {
            let buffer = retuned(self.buffer, self.beat);
            self.saw.lemma_run_wf(buffer.len());
            assert(self.sfreq * 60 / (self.beats_per_minute as int) >= 1) by (nonlinear_arith)
                requires
                    0 < self.beats_per_minute <= self.sfreq * 60,
            ;
            assert(self.sfreq * 60 / (self.beats_per_minute as int) <= self.sfreq * 60)
                by (nonlinear_arith)
                requires
                    0 < self.beats_per_minute,
                    0 <= self.sfreq * 60,
            ;
        }
    }
}

impl MetronomeView {
    /// The beat period in samples: `sfreq / (beats_per_minute / 60)`,
    /// rounded down.
    pub open spec fn beat_period(self) -> int {
        (self.sfreq * 60) / (self.beats_per_minute as int)
    }

    /// Running `a` samples and then `b` is running `a + b`.
    pub proof fn lemma_run_run(self, a: nat, b: nat)
        ensures
            self.run(a).run(b) == self.run(a + b),
        decreases b,
    {
        if b > 0 {
            self.lemma_run_run(a, (b - 1) as nat);
        }
    }

    /// Between two beats the frame counter counts down, one frame a
    /// sample, and nothing else of the beat changes.
    pub proof fn lemma_countdown(self, k: nat)
        requires
            self.wf(),
            k <= self.frames_until_next_beat,
        ensures
            self.run(k).wf(),
            self.run(k).frames_until_next_beat == self.frames_until_next_beat - k,
            self.run(k).beat == self.beat,
            self.run(k).saw == self.saw,
            self.run(k).sfreq == self.sfreq,
            self.run(k).beats_per_minute == self.beats_per_minute,
            self.run(k).beats_per_bar == self.beats_per_bar,
            self.run(k).buffer.len() == self.buffer.len(),
        decreases k,
    {
        if k > 0 {
            self.lemma_countdown((k - 1) as nat);
            self.run((k - 1) as nat).lemma_next_wf();
        }
    }

    /// The beat advances once per beat period, modulo the length of the
    /// bar: a beat that starts with a valid tempo is followed by the next
    /// one after `beat_period()` samples, and by none before.
    pub proof fn lemma_beat_period(self)
        requires
            self.wf(),
            self.at_beat(),
            self.tempo_valid(),
        ensures
            self.beat_period() >= 1,
            self.run(self.beat_period() as nat).at_beat(),
            self.run(self.beat_period() as nat).beat == (self.beat + 1) % (
            self.beats_per_bar as int),
            self.run(self.beat_period() as nat).beat < self.beats_per_bar,
            forall|k: nat| 1 <= k < self.beat_period() ==> !(#[trigger] self.run(k)).at_beat(),
    {
        let period = self.beat_period();
        assert(1 <= period <= self.sfreq * 60) by (nonlinear_arith)
            requires
                period == (self.sfreq * 60) / (self.beats_per_minute as int),
                0 < self.beats_per_minute <= self.sfreq * 60,
        ;
        self.lemma_next_wf();
        let started = self.run(1);
        assert(self.run(0) == self);
        assert(started == self.next());
        assert(started.frames_until_next_beat == period - 1);
        assert forall|k: nat| 1 <= k <= period implies (#[trigger] self.run(k)).frames_until_next_beat
            == period - k && self.run(k).beat == started.beat by {
            started.lemma_countdown((k - 1) as nat);
            self.lemma_run_run(1, (k - 1) as nat);
        }
    }
}

pub struct Metronome {
    sfreq: u32,
    beats_per_minute: u32,
    beats_per_bar: u32,
    delay_buffer: VecDeque<i16>,
    exitation: Sawtooth,
    frames_until_next_beat: u32,
    beat: u32,
}

impl View for Metronome {
    type V = MetronomeView;

    closed spec fn view(&self) -> MetronomeView {
        MetronomeView {
            sfreq: self.sfreq,
            beats_per_minute: self.beats_per_minute,
            beats_per_bar: self.beats_per_bar,
            buffer: self.delay_buffer@,
            saw: self.exitation@,
            frames_until_next_beat: self.frames_until_next_beat,
            beat: self.beat,
        }
    }
}

impl Default for Metronome {
    /// 120 beats per minute, four to the bar, at 48 kHz; the first sample
    /// starts the first beat.
    fn default() -> (m: Self)
        ensures
            m@.wf(),
            m@.tempo_valid(),
            m@.sfreq == 48000,
            m@.beats_per_minute == 120,
            m@.beats_per_bar == 4,
            m@.buffer == Seq::<i16>::empty(),
            m@.saw == (Saw { value: 0, slope: 4161 }),
            m@.frames_until_next_beat == 0,
            m@.beat == 0,
    {
        let period: usize = DELAY_FRAMES - (DELAY_DETUNE / 2);
        assert(0x40000int / 63 == 4161);
        Metronome {
            sfreq: 48000,
            beats_per_minute: 120,
            beats_per_bar: 4,
            delay_buffer: VecDeque::new(),
            exitation: Sawtooth::new(period as u32),
            frames_until_next_beat: 0,
            beat: 0,
        }
    }
}

/// The sum of two samples, held within the 16-bit range.
fn saturating_sum(a: i16, b: i16) -> (r: i16)
    ensures
        r == saturated(a + b),
{
    let sum: i32 = a as i32 + b as i32;
    if sum > i16::MAX as i32 {
        i16::MAX
    } else if sum < i16::MIN as i32 {
        i16::MIN
    } else {
        sum as i16
    }
}

/// The decayed sum of two samples.
fn pluck(a: i16, b: i16) -> (r: i16)
    ensures
        r == plucked(a, b),
{
    let sum: i32 = DECAY * (a as i32 + b as i32);
    assert((sum >> 16u32) == sum / 65536) by (bit_vector);
    (sum >> 16) as i16
}

impl Metronome {
    /// Take the sampling frequency from the context.
    pub fn setup(&mut self, ctx: &AudioContext)
        ensures
            final(self)@ == (MetronomeView {
                sfreq: ctx.sampling_frequency as u32,
                ..old(self)@
            }),
            ctx.sampling_frequency >= 0 ==> final(self)@.sfreq == ctx.sampling_frequency,
    {
        self.sfreq = #[verifier::truncate]
        (ctx.sampling_frequency as u32);
    }

    /// Change the tempo or the length of the bar. A new tempo takes effect
    /// at the next beat; a new bar at once, in that the beat is brought
    /// back into it.
    pub fn set_control(&mut self, ctrl: &Control)
        ensures
            final(self)@ == (match *ctrl {
                Control::BeatsPerMinute(bpm) => MetronomeView {
                    beats_per_minute: bpm,
                    ..old(self)@
                },
                Control::BeatsPerBar(bpb) => MetronomeView {
                    beats_per_bar: bpb,
                    beat: rebarred(old(self)@.beat, bpb),
                    ..old(self)@
                },
            }),
            old(self)@.wf() ==> final(self)@.wf(),
            final(self)@.beats_per_bar > 0 && (old(self)@.wf() || *ctrl is BeatsPerBar)
                ==> final(self)@.beat < final(self)@.beats_per_bar,
    {
        match ctrl {
            Control::BeatsPerMinute(bpm) => {
                self.beats_per_minute = *bpm;
            },
            Control::BeatsPerBar(bpb) => {
                self.beats_per_bar = *bpb;
                if *bpb > 0 {
                    proof {
                        lemma_rebarred(self.beat, *bpb);
                    }
                    self.beat = self.beat % *bpb;
                }
            },
        }
    }

    /// The settings as they stand.
    pub fn config(&self) -> (config: MetronomeConfig)
        ensures
            config.beats_per_minute == self@.beats_per_minute,
            config.beats_per_bar == self@.beats_per_bar,
    {
        MetronomeConfig {
            beats_per_minute: self.beats_per_minute,
            beats_per_bar: self.beats_per_bar,
        }
    }

    /// Change the tempo and the length of the bar. The tempo takes effect
    /// at the next beat; the bar at once, in that the beat is brought back
    /// into it.
    pub fn set_config(&mut self, config: MetronomeConfig)
        ensures
            final(self)@ == (MetronomeView {
                beats_per_minute: config.beats_per_minute,
                beats_per_bar: config.beats_per_bar,
                beat: rebarred(old(self)@.beat, config.beats_per_bar),
                ..old(self)@
            }),
            old(self)@.wf() ==> final(self)@.wf(),
            config.beats_per_bar > 0 ==> final(self)@.beat < config.beats_per_bar,
    {
        self.beats_per_minute = config.beats_per_minute;
        self.beats_per_bar = config.beats_per_bar;
        if config.beats_per_bar > 0 {
            proof {
                lemma_rebarred(self.beat, config.beats_per_bar);
            }
            self.beat = self.beat % config.beats_per_bar;
        }
    }

    /// Whether `n` samples can be made: the tempo is valid, or no beat is
    /// due within them.
    pub fn can_process(&self, n: usize) -> (b: bool)
        ensures
            b == self@.can_run(n as nat),
    {
        let tempo_valid = 0 < self.beats_per_minute && self.sfreq <= u32::MAX / 60
            && self.beats_per_minute <= self.sfreq * 60 && 0 < self.beats_per_bar;
        tempo_valid || (n <= u32::MAX as usize && n as u32 <= self.frames_until_next_beat)
    }

    /// Whether a sample can be made.
    pub fn can_step(&self) -> (b: bool)
        ensures
            b == self@.can_run(1),
    {
        self.can_process(1)
    }

    /// Add one sawtooth sample to each sample of the buffer, in order.
    fn excite(&mut self)
        requires
            old(self)@.saw.wf(),
        ensures
            final(self)@ == (MetronomeView {
                buffer: excited(old(self)@.buffer, old(self)@.saw),
                saw: old(self)@.saw.run(old(self)@.buffer.len()),
                ..old(self)@
            }),
    {
        let n = self.delay_buffer.len();
        let ghost before = self.delay_buffer@;
        let ghost saw = self.exitation@;
        let mut i: usize = 0;
        while i < n
            invariant
                i <= n,
                n == before.len(),
                saw.wf(),
                self.exitation@ == saw.run(i as nat),
                self.delay_buffer@ == before.subrange(i as int, n as int) + excited(
                    before,
                    saw,
                ).subrange(0, i as int),
                self.sfreq == old(self).sfreq,
                self.beats_per_minute == old(self).beats_per_minute,
                self.beats_per_bar == old(self).beats_per_bar,
                self.frames_until_next_beat == old(self).frames_until_next_beat,
                self.beat == old(self).beat,
            decreases n - i,
        {
            proof {
                saw.lemma_run_wf(i as nat);
            }
            let x = self.exitation.step();
            let front = self.delay_buffer.pop_front();
            match front {
                Some(v) => {
                    self.delay_buffer.push_back(saturating_sum(v, x));
                },
                None => {},
            }
            assert(self.delay_buffer@ =~= before.subrange(i + 1, n as int) + excited(
                before,
                saw,
            ).subrange(0, i + 1));
            i += 1;
        }
        assert(self.delay_buffer@ =~= excited(before, saw));
    }

    /// Produce a single metronome sample.
    pub fn step(&mut self) -> (spl: i16)
        requires
            old(self)@.wf(),
            old(self)@.can_run(1),
        ensures
            final(self)@ == old(self)@.next(),
            final(self)@.wf(),
            spl == final(self)@.buffer.last(),
    {
        proof {
            old(self)@.lemma_next_wf();
        }
        if self.frames_until_next_beat == 0 {
            // retune if needed
            if self.beat == 0 {
                self.delay_buffer.resize(DELAY_FRAMES - DELAY_DETUNE, 0);
            } else if self.beat == 1 {
                self.delay_buffer.resize(DELAY_FRAMES, 0);
            }
            assert(self.delay_buffer@ =~= retuned(old(self)@.buffer, old(self)@.beat));

            self.frames_until_next_beat = self.sfreq * 60 / self.beats_per_minute;
            assert(self.frames_until_next_beat >= 1) by (nonlinear_arith)
                requires
                    self.frames_until_next_beat == (self.sfreq * 60) / (
                    self.beats_per_minute as int),
                    0 < self.beats_per_minute <= self.sfreq * 60,
            ;
            self.beat = (self.beat + 1) % self.beats_per_bar;
            self.excite();
            assert(self@ == old(self)@.beat_started());
        }
        self.frames_until_next_beat -= 1;

        // this is a simple karplus-strong synth
        let ghost ringing = self@;
        let a: i16 = match self.delay_buffer.pop_front() {
            Some(v) => v,
            None => 0,
        };
        let b: i16 = self.delay_buffer[0];
        let spl = pluck(a, b);
        self.delay_buffer.push_back(spl);
        assert(self.delay_buffer@ =~= ringing.buffer.drop_first().push(
            plucked(ringing.buffer[0], ringing.buffer[1]),
        ));
        spl
    }

    /// Produce a whole buffer: one `step` per sample, in order.
    pub fn process(&mut self, samples: &mut [i16])
        requires
            old(self)@.wf(),
            old(self)@.can_run(old(samples)@.len()),
        ensures
            final(self)@ == old(self)@.run(old(samples)@.len()),
            final(self)@.wf(),
            final(samples)@ == old(self)@.samples(old(samples)@.len()),
    {
        let n = samples.len();
        let mut i: usize = 0;
        while i < n
            invariant
                i <= n,
                n == samples@.len(),
                self@ == old(self)@.run(i as nat),
                self@.wf(),
                self@.can_run((n - i) as nat),
                samples@.subrange(0, i as int) == old(self)@.samples(i as nat),
            decreases n - i,
        {
            let ghost before = samples@;
            proof {
                self@.lemma_next_wf();
            }
            let y = self.step();
            samples[i] = y;
            assert(samples@.subrange(0, i + 1) =~= before.subrange(0, i as int).push(y));
            assert(samples@.subrange(0, i + 1) =~= old(self)@.samples((i + 1) as nat));
            i += 1;
        }
        assert(samples@.subrange(0, n as int) =~= samples@);
    }
}

} // verus!
