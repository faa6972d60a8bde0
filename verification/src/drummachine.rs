//! Drum machine: a pattern sequencer that plays fixed 8-bit samples.
//!
//! The sequencer runs at half the sampling frequency. A division counter
//! counts the mix samples of one step of the pattern; when it runs out, the
//! voices named by the step are armed and the pattern moves on. Every other
//! output sample holds the previous one, and a lowpass after the sequencer
//! smooths the result: the sequencer only says which coefficients the filter
//! is to load, and when.

use crate::util::AudioContext;
use crate::util::rand31;
use crate::util::rand31_next;
use vstd::prelude::*;

verus! {

#[derive(Clone, Copy, Debug, PartialEq, Eq, Structural)]
pub enum Pattern {
    Basic4Beat,
    Basic8Beat,
    FourToTheFloor8Beat,
    Swing8Beat,
    Rock8Beat,
}

#[derive(Clone, Copy, Debug)]
pub struct DrumMachineConfig {
    pub beats_per_minute: u32,
    pub pattern: Pattern,
}

impl Default for DrumMachineConfig {
    fn default() -> (config: Self)
        ensures
            config.beats_per_minute == 112,
            config.pattern == Pattern::Basic4Beat,
    {
        Self { beats_per_minute: 112, pattern: Pattern::Basic4Beat }
    }
}

/// The bass drum's bit in a step of a pattern.
pub const BA: u8 = 0x01;

/// The snare's bit.
pub const SN: u8 = 0x02;

/// The closed hi-hat's bit.
pub const CH: u8 = 0x10;

/// The number of voice cursors.
pub const VOICES: usize = 8;

/// The number of coefficient sets that the lowpass after the sequencer
/// chooses from.
pub const COEFFICIENT_SETS: usize = 16;

/// How far before the end of its sample an armed voice starts at the
/// latest.
pub const LEAD_IN: usize = 64;

pub const BASIC_4BEAT: [u8; 4] = [CH | BA, CH | SN, CH | BA, CH | SN];

pub const BASIC_8BEAT: [u8; 8] = [CH | BA, CH, CH | SN, CH, CH | BA, CH, CH | SN, CH];

pub const FLOOR_8BEAT: [u8; 8] = [CH | BA, CH, CH | BA | SN, CH, CH | BA, CH, CH | BA | SN, CH];

pub const SWING_8BEAT: [u8; 12] = [
    CH | BA,
    0,
    CH,
    CH | SN,
    0,
    CH,
    CH | BA,
    0,
    CH,
    CH | SN,
    0,
    CH,
];

pub const ROCK_8BEAT: [u8; 8] = [
    CH | BA,
    CH,
    CH | SN,
    CH,
    CH | BA,
    CH | BA,
    CH | SN,
    CH | BA,
];

/// The steps of a pattern: one bit mask of voices per step.
pub open spec fn steps(pattern: Pattern) -> Seq<u8> {
    match pattern {
        Pattern::Basic4Beat => BASIC_4BEAT@,
        Pattern::Basic8Beat => BASIC_8BEAT@,
        Pattern::FourToTheFloor8Beat => FLOOR_8BEAT@,
        Pattern::Swing8Beat => SWING_8BEAT@,
        Pattern::Rock8Beat => ROCK_8BEAT@,
    }
}

/// The number of steps that a pattern plays in one beat.
pub open spec fn divisions(pattern: Pattern) -> u8 {
    match pattern {
        Pattern::Basic4Beat => 1,
        Pattern::Basic8Beat => 2,
        Pattern::FourToTheFloor8Beat => 2,
        Pattern::Swing8Beat => 3,
        Pattern::Rock8Beat => 2,
    }
}

/// A step names no voice but the bass drum, the snare and the hi-hat.
pub open spec fn three_voices(mask: u8) -> bool {
    mask & !(BA | SN | CH) == 0
}

proof fn lemma_masks()
    by (bit_vector)
    ensures
        three_voices(0),
        three_voices(CH),
        three_voices(CH | BA),
        three_voices(CH | SN),
        three_voices(CH | BA | SN),
{
}

/// Every pattern fills whole beats, and its steps name the three voices
/// only.
pub proof fn lemma_patterns(pattern: Pattern)
    ensures
        steps(pattern).len() > 0,
        divisions(pattern) > 0,
        steps(pattern).len() % (divisions(pattern) as nat) == 0,
        forall|i: int| 0 <= i < steps(pattern).len() ==> three_voices(#[trigger] steps(pattern)[i]),
{
    lemma_masks();
    assert(4nat % 1 == 0 && 8nat % 2 == 0 && 12nat % 3 == 0);
}

fn pattern_steps(pattern: Pattern) -> (s: &'static [u8])
    ensures
        s@ == steps(pattern),
{
    match pattern {
        Pattern::Basic4Beat => &BASIC_4BEAT,
        Pattern::Basic8Beat => &BASIC_8BEAT,
        Pattern::FourToTheFloor8Beat => &FLOOR_8BEAT,
        Pattern::Swing8Beat => &SWING_8BEAT,
        Pattern::Rock8Beat => &ROCK_8BEAT,
    }
}

fn divisions_per_beat(pattern: Pattern) -> (d: u8)
    ensures
        d == divisions(pattern),
{
    match pattern {
        Pattern::Basic4Beat => 1,
        Pattern::Basic8Beat => 2,
        Pattern::FourToTheFloor8Beat => 2,
        Pattern::Swing8Beat => 3,
        Pattern::Rock8Beat => 2,
    }
}

/// The samples that the voices play: signed 8-bit PCM, one table per voice.
#[derive(Clone, Copy, Debug)]
pub struct SampleBank {
    pub kick: &'static [i8],
    pub snare: &'static [i8],
    pub hihat: &'static [i8],
}

/// Whether a table has room for the lead-in, and an armed cursor for it
/// fits the machine word.
fn playable(table: &[i8]) -> (b: bool)
    ensures
        b == (LEAD_IN <= table@.len() <= usize::MAX - 255),
{
    LEAD_IN <= table.len() && table.len() <= usize::MAX - 255
}

/// Whether cursor `voice` plays a sample at all.
pub open spec fn is_voice(voice: int) -> bool {
    voice == 0 || voice == 1 || voice == 4
}

impl SampleBank {
    /// The table that cursor `voice` reads: the cursor's number is the
    /// number of the voice's bit.
    pub open spec fn table(self, voice: int) -> Seq<i8> {
        if voice == 0 {
            self.kick@
        } else if voice == 1 {
            self.snare@
        } else {
            self.hihat@
        }
    }

    /// Every table is long enough for the lead-in of an armed voice, and an
    /// armed cursor fits the machine word.
    pub open spec fn wf(self) -> bool {
        forall|voice: int|
            is_voice(voice) ==> LEAD_IN <= (#[trigger] self.table(voice)).len() <= usize::MAX - 255
    }

    /// Whether the tables can be played: the test of `wf`.
    pub fn usable(&self) -> (b: bool)
        ensures
            b == self.wf(),
    {
        let b = playable(self.kick) && playable(self.snare) && playable(self.hihat);
        proof {
            if b {
                assert forall|voice: int| is_voice(voice) implies LEAD_IN <= (#[trigger] self.table(
                    voice,
                )).len() <= usize::MAX - 255 by {}
            } else {
                assert(is_voice(0) && is_voice(1) && is_voice(4));
                assert(self.table(0) == self.kick@);
                assert(self.table(1) == self.snare@);
                assert(self.table(4) == self.hihat@);
            }
        }
        b
    }

    /// The sample table of the voice with bit `i`.
    pub fn lookup_sample(&self, i: usize) -> (sample: &'static [i8])
        requires
            is_voice(i as int),
        ensures
            sample@ == self.table(i as int),
    {
        if i == 0 {
            self.kick
        } else if i == 1 {
            self.snare
        } else {
            self.hihat
        }
    }
}

/// What one output sample is made from.
#[derive(Clone, Copy, Debug, PartialEq, Eq)]
pub enum Excitation {
    /// A new mix sample, in units of 1/256 of full scale. Where `retune`
    /// names a coefficient set, the lowpass loads it before it filters this
    /// sample.
    Fresh { mix: i32, retune: Option<usize> },
    /// No new mix sample: the lowpass filters its own last result again.
    Held,
}

/// The length of one step of a pattern in mix samples:
/// `(sfreq / 2) / (beats_per_minute / 60) / divisions`, rounded down and
/// held within the counter's range. Without a tempo the step never ends,
/// unless there is no time at all.
pub open spec fn samples_per_division(sfreq: i32, beats_per_minute: u32, divisions: u8) -> i32 {
    let samples_per_second = sfreq / 2;
    if beats_per_minute == 0 {
        if samples_per_second == 0 {
            0
        } else {
            i32::MAX
        }
    } else {
        let samples = (samples_per_second * 60) / (beats_per_minute * divisions);
        if samples > i32::MAX {
            i32::MAX
        } else {
            samples as i32
        }
    }
}

/// The cutoff frequency, in Hz, of the lowpass that coefficient set `set`
/// is designed for.
pub fn coefficient_cutoff(set: usize) -> (shfreq: i32)
    requires
        set < COEFFICIENT_SETS,
    ensures
        shfreq == 9000 + 50 * set,
{
    9000 + 50 * (set as i32)
}

/// The place of coefficient set `set` on the scale of four quality
/// factors that the sets go through in turn.
pub fn coefficient_quality(set: usize) -> (step: usize)
    ensures
        step == set % 4,
{
    assert(set & 3 == set % 4) by (bit_vector);
    set & 3
}

/// The cursor of a voice that has just been armed: `draw` is the random
/// number drawn for it, whose low byte shortens or lengthens the lead-in.
pub open spec fn armed(table: Seq<i8>, draw: u32) -> usize {
    (table.len() - LEAD_IN + (draw & 255)) as usize
}

/// The cursors and the seed once the first `upto` cursors have seen the
/// step `mask`.
pub open spec fn triggered_upto(
    voice_pointer: Seq<usize>,
    seed: u32,
    mask: u8,
    samples: SampleBank,
    upto: int,
) -> (Seq<usize>, u32) {
    let (vp0, seed0) = if upto > 0 && mask & BA != 0 {
        let draw = rand31_next(seed);
        (voice_pointer.update(0, armed(samples.kick@, draw)), draw)
    } else {
        (voice_pointer, seed)
    };
    let (vp1, seed1) = if upto > 1 && mask & SN != 0 {
        let draw = rand31_next(seed0);
        (vp0.update(1, armed(samples.snare@, draw)), draw)
    } else {
        (vp0, seed0)
    };
    if upto > 4 && mask & CH != 0 {
        let draw = rand31_next(seed1);
        (vp1.update(4, armed(samples.hihat@, draw)), draw)
    } else {
        (vp1, seed1)
    }
}

/// The cursors and the seed after the step `mask`: each voice that the
/// step names is armed, the bass drum first, then the snare, then the
/// hi-hat, each with a random number of its own.
pub open spec fn triggered(voice_pointer: Seq<usize>, seed: u32, mask: u8, samples: SampleBank) -> (
    Seq<usize>,
    u32,
) {
    triggered_upto(voice_pointer, seed, mask, samples, VOICES as int)
}

/// What a voice adds to the mix: the sample `cursor` places before the end
/// of its table, nothing while the cursor is at rest or still in its
/// lead-in.
pub open spec fn level(table: Seq<i8>, cursor: usize) -> int {
    if cursor != 0 && cursor <= table.len() {
        table[table.len() - cursor] as int
    } else {
        0
    }
}

/// The sum of the first `upto` cursors' levels.
pub open spec fn mixed_upto(voice_pointer: Seq<usize>, samples: SampleBank, upto: int) -> int {
    (if upto > 0 {
        level(samples.kick@, voice_pointer[0])
    } else {
        0
    }) + (if upto > 1 {
        level(samples.snare@, voice_pointer[1])
    } else {
        0
    }) + (if upto > 4 {
        level(samples.hihat@, voice_pointer[4])
    } else {
        0
    })
}

/// The mix: the sum of the three voices' levels.
pub open spec fn mixed(voice_pointer: Seq<usize>, samples: SampleBank) -> int {
    mixed_upto(voice_pointer, samples, VOICES as int)
}

/// The cursors one mix sample later: each one that is not at rest has
/// moved one sample on.
pub open spec fn advanced(voice_pointer: Seq<usize>) -> Seq<usize> {
    Seq::new(
        voice_pointer.len(),
        |i: int|
            if voice_pointer[i] != 0 {
                (voice_pointer[i] - 1) as usize
            } else {
                0
            },
    )
}

/// The cursors `k` mix samples later: each has moved `k` samples on, or has
/// come to rest.
pub open spec fn advanced_by(voice_pointer: Seq<usize>, k: nat) -> Seq<usize> {
    Seq::new(
        voice_pointer.len(),
        |i: int|
            if voice_pointer[i] >= k {
                (voice_pointer[i] - k) as usize
            } else {
                0
            },
    )
}

proof fn lemma_first_draws()
    ensures
        rand31_next(1) == 16807,
        rand31_next(16807) == 282475249,
        16807u32 & 255 == 167,
        282475249u32 & 255 == 241,
        (CH | BA) & BA != 0,
        (CH | BA) & SN == 0,
        (CH | BA) & CH != 0,
{
    assert(16807u32 & 255 == 167) by (bit_vector);
    assert(282475249u32 & 255 == 241) by (bit_vector);
    assert((0x10u8 | 0x01u8) & 0x01u8 != 0) by (bit_vector);
    assert((0x10u8 | 0x01u8) & 0x02u8 == 0) by (bit_vector);
    assert((0x10u8 | 0x01u8) & 0x10u8 != 0) by (bit_vector);
    assert(16807 * 16807 == 282475249);
}

/// The sequencer as a mathematical value.
pub struct DrumMachineView {
    pub config: DrumMachineConfig,
    pub sfreq: i32,
    pub cold_sample: bool,
    pub division_counter: i32,
    pub division_reload: i32,
    pub voice_pointer: Seq<usize>,
    pub i: usize,
    pub seed: u32,
    pub samples: SampleBank,
}

impl DrumMachineView {
    pub open spec fn wf(self) -> bool {
        &&& self.samples.wf()
        &&& self.sfreq >= 0
        &&& self.division_counter >= 0
        &&& self.division_reload >= 0
        &&& self.i < steps(self.config.pattern).len()
        &&& self.voice_pointer.len() == VOICES
        &&& forall|voice: int|
            0 <= voice < VOICES ==> if is_voice(voice) {
                (#[trigger] self.voice_pointer[voice]) <= self.samples.table(voice).len() + 255
                    - LEAD_IN
            } else {
                self.voice_pointer[voice] == 0
            }
    }

    /// The step of the pattern that is due next.
    pub open spec fn mask(self) -> u8 {
        steps(self.config.pattern)[self.i as int]
    }

    /// The settings take effect: the division is measured anew and the
    /// pattern starts over, at once.
    pub open spec fn updated(self) -> DrumMachineView {
        DrumMachineView {
            division_counter: 0,
            division_reload: samples_per_division(
                self.sfreq,
                self.config.beats_per_minute,
                divisions(self.config.pattern),
            ),
            i: 0,
            ..self
        }
    }

    /// The start of a mix sample: where the division has run out, the
    /// voices of the step that is due are armed, the counter is loaded
    /// again and the pattern moves on; else the counter counts down.
    pub open spec fn counted(self) -> DrumMachineView {
        if self.division_counter == 0 {
            let (voice_pointer, seed) = triggered(
                self.voice_pointer,
                self.seed,
                self.mask(),
                self.samples,
            );
            DrumMachineView {
                voice_pointer,
                seed,
                division_counter: self.division_reload,
                i: if self.i + 1 >= steps(self.config.pattern).len() {
                    0
                } else {
                    (self.i + 1) as usize
                },
                ..self
            }
        } else {
            DrumMachineView { division_counter: (self.division_counter - 1) as i32, ..self }
        }
    }

    /// One mix sample: the sequencer afterwards, and the mix.
    pub open spec fn ministep(self) -> (DrumMachineView, i32) {
        let counted = self.counted();
        (
            DrumMachineView { voice_pointer: advanced(counted.voice_pointer), ..counted },
            mixed(counted.voice_pointer, self.samples) as i32,
        )
    }

    /// One output sample. Every other one is a new mix sample; where that
    /// one has brought the division counter to zero, a random number picks
    /// the coefficient set that the lowpass loads.
    pub open spec fn next(self) -> (DrumMachineView, Excitation) {
        if !self.cold_sample {
            let (mixed, mix) = self.ministep();
            if mixed.division_counter == 0 {
                let draw = rand31_next(mixed.seed);
                (
                    DrumMachineView { cold_sample: true, seed: draw, ..mixed },
                    Excitation::Fresh {
                        mix,
                        retune: Some((draw % (COEFFICIENT_SETS as u32)) as usize),
                    },
                )
            } else {
                (
                    DrumMachineView { cold_sample: true, ..mixed },
                    Excitation::Fresh { mix, retune: None },
                )
            }
        } else {
            (DrumMachineView { cold_sample: false, ..self }, Excitation::Held)
        }
    }

    /// The sequencer after `n` output samples.
    pub open spec fn run(self, n: nat) -> DrumMachineView
        decreases n,
    {
        if n == 0 {
            self
        } else {
            self.run((n - 1) as nat).next().0
        }
    }

    /// The first `n` output samples.
    pub open spec fn excitations(self, n: nat) -> Seq<Excitation> {
        Seq::new(n, |k: int| self.run(k as nat).next().1)
    }

    /// The place in the pattern after the step at `i`.
    pub open spec fn following(self) -> usize {
        if self.i + 1 >= steps(self.config.pattern).len() {
            0
        } else {
            (self.i + 1) as usize
        }
    }

    /// What one output sample does to the counters: a held sample leaves
    /// them alone; a new one counts the division down, and where it has run
    /// out, loads it again and moves on in the pattern. The settings stay.
    pub proof fn lemma_next(self)
        requires
            self.wf(),
        ensures
            self.next().0.wf(),
            self.next().0.config == self.config,
            self.next().0.sfreq == self.sfreq,
            self.next().0.samples == self.samples,
            self.next().0.division_reload == self.division_reload,
            self.next().0.cold_sample == !self.cold_sample,
            self.next().1 is Held <==> self.cold_sample,
            self.cold_sample ==> self.next().0 == (DrumMachineView { cold_sample: false, ..self }),
            !self.cold_sample && self.division_counter == 0 ==> {
                &&& self.next().0.division_counter == self.division_reload
                &&& self.next().0.i == self.following()
            },
            !self.cold_sample && self.division_counter > 0 ==> {
                &&& self.next().0.division_counter == self.division_counter - 1
                &&& self.next().0.i == self.i
            },
    {
        if !self.cold_sample {
            lemma_patterns(self.config.pattern);
            let counted = self.counted();
            if self.division_counter == 0 {
                let draw0 = rand31_next(self.seed);
                lemma_low_byte(draw0);
                let seed0 = if self.mask() & BA != 0 {
                    draw0
                } else {
                    self.seed
                };
                let draw1 = rand31_next(seed0);
                lemma_low_byte(draw1);
                let seed1 = if self.mask() & SN != 0 {
                    draw1
                } else {
                    seed0
                };
                lemma_low_byte(rand31_next(seed1));
                assert(is_voice(0) && is_voice(1) && is_voice(4));
                assert(self.samples.table(0) == self.samples.kick@);
                assert(self.samples.table(1) == self.samples.snare@);
                assert(self.samples.table(4) == self.samples.hihat@);
            }
            assert(counted.wf());
            let played = DrumMachineView {
                voice_pointer: advanced(counted.voice_pointer),
                ..counted
            };
            assert(played.wf());
        }
    }

    /// Within a division every two output samples count it down by one.
    pub proof fn lemma_countdown(self, k: nat)
        requires
            self.wf(),
            !self.cold_sample,
            k <= self.division_counter,
        ensures
            self.run(2 * k).wf(),
            !self.run(2 * k).cold_sample,
            self.run(2 * k).division_counter == self.division_counter - k,
            self.run(2 * k).i == self.i,
            self.run(2 * k).config == self.config,
            self.run(2 * k).division_reload == self.division_reload,
        decreases k,
    {
        if k > 0 {
            self.lemma_countdown((k - 1) as nat);
            let before = self.run((2 * (k - 1)) as nat);
            before.lemma_next();
            assert(self.run((2 * k - 1) as nat) == before.next().0);
            before.next().0.lemma_next();
            assert(self.run(2 * k) == self.run((2 * k - 1) as nat).next().0);
        }
    }

    /// The length of a division: a step that is triggered by a new mix
    /// sample is followed by the next step of the pattern after
    /// `division_reload + 1` mix samples, which are twice as many output
    /// samples, and by none before.
    pub proof fn lemma_division(self)
        requires
            self.wf(),
            !self.cold_sample,
            self.division_counter == 0,
        ensures
            forall|k: nat|
                1 <= k <= self.division_reload ==> (#[trigger] self.run(2 * k)).division_counter
                    == self.division_reload + 1 - k && self.run(2 * k).i == self.following(),
            self.run((2 * (self.division_reload + 1)) as nat).division_counter == 0,
            self.run((2 * (self.division_reload + 1)) as nat).i == self.following(),
            !self.run((2 * (self.division_reload + 1)) as nat).cold_sample,
    {
        self.lemma_next();
        let hot = self.next().0;
        hot.lemma_next();
        let started = hot.next().0;
        assert(self.run(0) == self);
        assert(self.run(1) == hot);
        assert(self.run(2) == started);
        assert forall|k: nat| 1 <= k <= self.division_reload + 1 implies (#[trigger] self.run(
            2 * k,
        )).division_counter == self.division_reload + 1 - k && self.run(2 * k).i
            == self.following() && !self.run(2 * k).cold_sample by {
            started.lemma_countdown((k - 1) as nat);
            self.lemma_run_run(2, (2 * (k - 1)) as nat);
        }
        assert(self.run((2 * (self.division_reload + 1)) as nat) == self.run(
            2 * ((self.division_reload + 1) as nat),
        ));
    }

    /// Within a division the voices play their tables through: as long as
    /// the division lasts, each new mix sample is the sum of the samples
    /// under the cursors, which have moved on by one sample for each mix
    /// sample before it.
    pub proof fn lemma_plays(self, k: nat)
        requires
            self.wf(),
            !self.cold_sample,
            k < self.division_counter,
        ensures
            self.run(2 * k).voice_pointer == advanced_by(self.voice_pointer, k),
            self.run(2 * k).seed == self.seed,
            self.run(2 * k).samples == self.samples,
            self.run(2 * k).next().1 is Fresh,
            self.run(2 * k).next().1->mix == mixed(
                advanced_by(self.voice_pointer, k),
                self.samples,
            ),
        decreases k,
    {
        self.lemma_countdown(k);
        if k == 0 {
            assert(self.run(0) == self);
            assert(advanced_by(self.voice_pointer, 0) =~= self.voice_pointer);
        } else {
            self.lemma_plays((k - 1) as nat);
            let before = self.run((2 * (k - 1)) as nat);
            self.lemma_countdown((k - 1) as nat);
            before.lemma_next();
            let hot = before.next().0;
            assert(self.run((2 * k - 1) as nat) == hot);
            hot.lemma_next();
            assert(self.run(2 * k) == hot.next().0);
            assert(hot.voice_pointer == advanced(before.voice_pointer));
            assert(advanced(advanced_by(self.voice_pointer, (k - 1) as nat)) =~= advanced_by(
                self.voice_pointer,
                k,
            ));
        }
        let now = self.run(2 * k);
        assert(now.division_counter > 0);
        assert(mixed(now.voice_pointer, now.samples) <= 381 && mixed(
            now.voice_pointer,
            now.samples,
        ) >= -384);
    }

    /// A sequencer at rest: the default settings, no sampling frequency
    /// yet, every voice at rest, the generator at its first seed.
    pub open spec fn at_rest(samples: SampleBank) -> DrumMachineView {
        DrumMachineView {
            config: DrumMachineConfig { beats_per_minute: 112, pattern: Pattern::Basic4Beat },
            sfreq: 0,
            cold_sample: false,
            division_counter: 0,
            division_reload: 0,
            voice_pointer: Seq::new(VOICES as nat, |i: int| 0usize),
            i: 0,
            seed: 1,
            samples,
        }
    }

    /// A sequencer that has been set up and not yet played.
    pub open spec fn fresh(samples: SampleBank, sfreq: i32) -> DrumMachineView {
        (DrumMachineView { sfreq, ..Self::at_rest(samples) }).updated()
    }

    /// A fresh sequencer is well formed, and its division is that of one
    /// step to the beat at 112 beats a minute.
    pub proof fn lemma_fresh_wf(samples: SampleBank, sfreq: i32)
        requires
            samples.wf(),
            sfreq >= 0,
        ensures
            Self::fresh(samples, sfreq).wf(),
            Self::fresh(samples, sfreq).division_reload == ((sfreq / 2) * 60) / 112,
    {
        lemma_patterns(Pattern::Basic4Beat);
        assert(divisions(Pattern::Basic4Beat) == 1);
        assert(112 * 1 == 112);
    }

    /// The first step of a fresh sequencer arms the bass drum and the
    /// hi-hat, 103 and 177 mix samples ahead, and the first mix sample is
    /// silent.
    pub proof fn lemma_fresh_start(samples: SampleBank, sfreq: i32)
        requires
            Self::fresh(samples, sfreq).wf(),
            Self::fresh(samples, sfreq).division_reload >= 1,
        ensures
            Self::fresh(samples, sfreq).run(2).wf(),
            !Self::fresh(samples, sfreq).run(2).cold_sample,
            Self::fresh(samples, sfreq).run(2).division_counter == Self::fresh(
                samples,
                sfreq,
            ).division_reload,
            Self::fresh(samples, sfreq).run(2).samples == samples,
            Self::fresh(samples, sfreq).run(2).voice_pointer == Seq::new(
                VOICES as nat,
                |i: int|
                    if i == 0 {
                        (samples.kick@.len() + 102) as usize
                    } else if i == 4 {
                        (samples.hihat@.len() + 176) as usize
                    } else {
                        0usize
                    },
            ),
    {
        let s = Self::fresh(samples, sfreq);
        lemma_first_draws();
        lemma_patterns(s.config.pattern);
        assert(s.mask() == CH | BA);
        assert(is_voice(0) && is_voice(4));
        assert(samples.table(0) == samples.kick@);
        assert(samples.table(4) == samples.hihat@);
        s.lemma_next();
        let counted = s.counted();
        assert(counted.voice_pointer =~= Seq::new(
            VOICES as nat,
            |i: int|
                if i == 0 {
                    (samples.kick@.len() + 103) as usize
                } else if i == 4 {
                    (samples.hihat@.len() + 177) as usize
                } else {
                    0usize
                },
        ));
        let hot = s.next().0;
        assert(hot.voice_pointer =~= Seq::new(
            VOICES as nat,
            |i: int|
                if i == 0 {
                    (samples.kick@.len() + 102) as usize
                } else if i == 4 {
                    (samples.hihat@.len() + 176) as usize
                } else {
                    0usize
                },
        ));
        hot.lemma_next();
        assert(s.run(0) == s);
        assert(s.run(1) == hot);
        assert(s.run(2) == hot.next().0);
    }

    /// A fresh sequencer is heard: while the first division lasts and the
    /// hi-hat is still in its lead-in, the mix is the bass drum's table from
    /// its start, so the output is not silent unless that part of the table
    /// is. Sample `d` of the table is output sample `206 + 2 * d`.
    pub proof fn lemma_fresh_is_heard(samples: SampleBank, sfreq: i32, d: nat)
        requires
            Self::fresh(samples, sfreq).wf(),
            d < 74,
            d < samples.kick@.len(),
            102 + d < Self::fresh(samples, sfreq).division_reload,
        ensures
            Self::fresh(samples, sfreq).run(206 + 2 * d).next().1 is Fresh,
            Self::fresh(samples, sfreq).run(206 + 2 * d).next().1->mix == samples.kick@[d as int],
    {
        let s = Self::fresh(samples, sfreq);
        Self::lemma_fresh_start(samples, sfreq);
        let started = s.run(2);
        started.lemma_plays(102 + d);
        s.lemma_run_run(2, 2 * (102 + d));
        assert(s.run(206 + 2 * d) == started.run(2 * (102 + d)));
        let cursors = advanced_by(started.voice_pointer, 102 + d);
        assert(cursors[0] == samples.kick@.len() - d);
        assert(cursors[1] == 0);
        assert(cursors[4] == samples.hihat@.len() + 74 - d);
    }

    /// Running `a` samples and then `b` is running `a + b`.
    pub proof fn lemma_run_run(self, a: nat, b: nat)
        ensures
            self.run(a).run(b) == self.run(a + b),
        decreases b,
    {
        if b > 0 {
            self.lemma_run_run(a, (b - 1) as nat);
        }
    }
}

pub struct DrumMachine {
    config: DrumMachineConfig,
    sfreq: i32,
    cold_sample: bool,
    division_counter: i32,
    division_reload: i32,
    voice_pointer: [usize; 8],
    i: usize,
    seed: u32,
    samples: SampleBank,
}

impl View for DrumMachine {
    type V = DrumMachineView;

    closed spec fn view(&self) -> DrumMachineView {
        DrumMachineView {
            config: self.config,
            sfreq: self.sfreq,
            cold_sample: self.cold_sample,
            division_counter: self.division_counter,
            division_reload: self.division_reload,
            voice_pointer: self.voice_pointer@,
            i: self.i,
            seed: self.seed,
            samples: self.samples,
        }
    }
}

proof fn lemma_voice_bit(mask: u8, i: u8)
    by (bit_vector)
    requires
        mask & !(0x01u8 | 0x02u8 | 0x10u8) == 0,
        i < 8,
    ensures
        (1u8 << i) & mask != 0 ==> i == 0 || i == 1 || i == 4,
        i == 0 ==> ((1u8 << i) & mask != 0 <==> mask & 0x01u8 != 0),
        i == 1 ==> ((1u8 << i) & mask != 0 <==> mask & 0x02u8 != 0),
        i == 4 ==> ((1u8 << i) & mask != 0 <==> mask & 0x10u8 != 0),
{
}

proof fn lemma_low_byte(draw: u32)
    by (bit_vector)
    ensures
        draw & 255 <= 255,
{
}

impl DrumMachine {
    /// A sequencer at rest, with the default settings and no sampling
    /// frequency yet.
    pub fn new(samples: SampleBank) -> (dm: Self)
        requires
            samples.wf(),
        ensures
            dm@.wf(),
            dm@ == DrumMachineView::at_rest(samples),
    {
        let dm = Self {
            config: DrumMachineConfig::default(),
            sfreq: 0,
            cold_sample: false,
            division_counter: 0,
            division_reload: 0,
            voice_pointer: [0; 8],
            i: 0,
            seed: 1,
            samples,
        };
        assert(dm@.voice_pointer =~= Seq::new(VOICES as nat, |i: int| 0usize));
        dm
    }

    /// Update the state variables based on the current control values: the
    /// division is measured anew, and the pattern starts over.
    pub fn update(&mut self)
        requires
            (DrumMachineView { i: 0, ..old(self)@ }).wf(),
        ensures
            final(self)@ == old(self)@.updated(),
            final(self)@.wf(),
    {
        let divisions = divisions_per_beat(self.config.pattern);
        let samples_per_second: u64 = (self.sfreq / 2) as u64;
        let beats_per_minute: u64 = self.config.beats_per_minute as u64;
        proof {
            lemma_patterns(self.config.pattern);
            assert(beats_per_minute > 0 ==> 0 < beats_per_minute * divisions <= 3 * u32::MAX)
                by (nonlinear_arith)
                requires
                    0 < divisions <= 3,
                    beats_per_minute <= u32::MAX,
            ;
        }

        self.division_counter = 0;
        self.division_reload = if beats_per_minute == 0 {
            if samples_per_second == 0 {
                0
            } else {
                i32::MAX
            }
        } else {
            let samples: u64 = (samples_per_second * 60) / (beats_per_minute * (divisions as u64));
            if samples > i32::MAX as u64 {
                i32::MAX
            } else {
                samples as i32
            }
        };
        self.i = 0;
    }

    /// Take the sampling frequency from the context and start the pattern.
    pub fn setup(&mut self, ctx: &AudioContext)
        requires
            old(self)@.wf(),
            ctx.sampling_frequency >= 0,
        ensures
            final(self)@ == (DrumMachineView {
                sfreq: ctx.sampling_frequency,
                ..old(self)@
            }).updated(),
            final(self)@.wf(),
    {
        self.sfreq = ctx.sampling_frequency;
        proof {
            lemma_patterns(self.config.pattern);
        }
        self.update();
    }

    pub fn config(&self) -> (config: DrumMachineConfig)
        ensures
            config == self@.config,
    {
        self.config
    }

    /// Change the tempo and the pattern. The pattern starts over at once.
    pub fn set_config(&mut self, config: DrumMachineConfig)
        requires
            old(self)@.wf(),
        ensures
            final(self)@ == (DrumMachineView { config, ..old(self)@ }).updated(),
            final(self)@.wf(),
    {
        self.config = config;
        proof {
            lemma_patterns(self.config.pattern);
        }
        self.update();
    }

    /// Arm the voices that the step `mask` names.
    fn arm(&mut self, mask: u8)
        requires
            old(self)@.wf(),
            three_voices(mask),
        ensures
            final(self)@ == (DrumMachineView {
                voice_pointer: triggered(
                    old(self)@.voice_pointer,
                    old(self)@.seed,
                    mask,
                    old(self)@.samples,
                ).0,
                seed: triggered(
                    old(self)@.voice_pointer,
                    old(self)@.seed,
                    mask,
                    old(self)@.samples,
                ).1,
                ..old(self)@
            }),
            final(self)@.wf(),
    {
        let mut i: usize = 0;
        while i < VOICES
            invariant
                i <= VOICES,
                three_voices(mask),
                self@.wf(),
                self@ == (DrumMachineView {
                    voice_pointer: self@.voice_pointer,
                    seed: self@.seed,
                    ..old(self)@
                }),
                (self@.voice_pointer, self@.seed) == triggered_upto(
                    old(self)@.voice_pointer,
                    old(self)@.seed,
                    mask,
                    old(self)@.samples,
                    i as int,
                ),
            decreases VOICES - i,
        {
            proof {
                lemma_voice_bit(mask, i as u8);
            }
            if (1u8 << i) & mask != 0 {
                let len = self.samples.lookup_sample(i).len();
                let draw = rand31(&mut self.seed);
                proof {
                    lemma_low_byte(draw);
                }
                let offset = (draw & 255) as usize;
                self.voice_pointer[i] = len - LEAD_IN + offset;
            }
            i += 1;
        }
    }

    /// The sum of the samples under the cursors; every cursor that is not at
    /// rest moves on.
    fn play(&mut self) -> (spl: i32)
        requires
            old(self)@.wf(),
        ensures
            spl == mixed(old(self)@.voice_pointer, old(self)@.samples),
            -384 <= spl <= 381,
            final(self)@ == (DrumMachineView {
                voice_pointer: advanced(old(self)@.voice_pointer),
                ..old(self)@
            }),
            final(self)@.wf(),
    {
        let mut spl: i32 = 0;
        let mut i: usize = 0;
        while i < VOICES
            invariant
                i <= VOICES,
                old(self)@.wf(),
                self@ == (DrumMachineView { voice_pointer: self@.voice_pointer, ..old(self)@ }),
                self@.voice_pointer.len() == VOICES,
                forall|k: int|
                    0 <= k < VOICES ==> (#[trigger] self@.voice_pointer[k]) == if k < i {
                        advanced(old(self)@.voice_pointer)[k]
                    } else {
                        old(self)@.voice_pointer[k]
                    },
                spl == mixed_upto(old(self)@.voice_pointer, old(self)@.samples, i as int),
                -128 * i <= spl <= 127 * i,
            decreases VOICES - i,
        {
            if self.voice_pointer[i] != 0 {
                let sample = self.samples.lookup_sample(i);
                let len = sample.len();

                if self.voice_pointer[i] <= len {
                    spl += sample[len - self.voice_pointer[i]] as i32;
                }
                self.voice_pointer[i] -= 1;
            }
            i += 1;
        }
        assert(self@.voice_pointer =~= advanced(old(self)@.voice_pointer));
        spl
    }

    /// One mix sample.
    fn ministep(&mut self) -> (spl: i32)
        requires
            old(self)@.wf(),
        ensures
            (final(self)@, spl) == old(self)@.ministep(),
            -384 <= spl <= 381,
            final(self)@.wf(),
    {
        if self.division_counter == 0 {
            // trigger the voices
            let pattern = pattern_steps(self.config.pattern);
            proof {
                lemma_patterns(self.config.pattern);
            }
            self.arm(pattern[self.i]);

            // restart the division counter and move to the next part of the pattern
            self.division_counter = self.division_reload;
            self.i += 1;
            if self.i >= pattern.len() {
                self.i = 0;
            }
        } else {
            self.division_counter -= 1;
        }
        assert(self@ == old(self)@.counted());

        // process the voices
        self.play()
    }

    /// Produce what a single drum machine sample is made from.
    ///
    /// This is the sequencer's side of a 2x integer resampler acting on the
    /// mix: every other sample is held, and the lowpass that follows makes
    /// the steps smooth. Its coefficients change just before a step is
    /// triggered: that is when the mix is at its most quiet.
    pub fn step(&mut self) -> (e: Excitation)
        requires
            old(self)@.wf(),
        ensures
            (final(self)@, e) == old(self)@.next(),
            final(self)@.wf(),
            match e {
                Excitation::Fresh { mix, retune } => -384 <= mix <= 381 && (match retune {
                    Some(set) => set < COEFFICIENT_SETS,
                    None => true,
                }),
                Excitation::Held => true,
            },
    {
        let hot_sample = !self.cold_sample;
        self.cold_sample = hot_sample;

        if hot_sample {
            let mix = self.ministep();
            if self.division_counter == 0 {
                let draw = rand31(&mut self.seed);
                Excitation::Fresh { mix, retune: Some((draw % (COEFFICIENT_SETS as u32)) as usize) }
            } else {
                Excitation::Fresh { mix, retune: None }
            }
        } else {
            Excitation::Held
        }
    }

    /// Produce a whole buffer: one `step` per sample, in order.
    pub fn process(&mut self, samples: &mut [Excitation])
        requires
            old(self)@.wf(),
        ensures
            final(self)@ == old(self)@.run(old(samples)@.len()),
            final(self)@.wf(),
            final(samples)@ == old(self)@.excitations(old(samples)@.len()),
    {
        let n = samples.len();
        let mut i: usize = 0;
        while i < n
            invariant
                i <= n,
                n == samples@.len(),
                self@ == old(self)@.run(i as nat),
                self@.wf(),
                samples@.subrange(0, i as int) == old(self)@.excitations(i as nat),
            decreases n - i,
        {
            let ghost before = samples@;
            let e = self.step();
            samples[i] = e;
            assert(samples@.subrange(0, i + 1) =~= before.subrange(0, i as int).push(e));
            assert(samples@.subrange(0, i + 1) =~= old(self)@.excitations((i + 1) as nat));
            i += 1;
        }
        assert(samples@.subrange(0, n as int) =~= samples@);
    }
}

} // verus!
