//! Polyphony: a fixed pool of voices and the allocation of notes to them.
//!
//! Every voice carries the note it is bound to (0 while it is free) and the
//! time at which it was last bound or released, and no note is bound to two
//! voices. A note that is bound already is played on its voice again. A new
//! note takes a free voice if there is one, and else steals a bound one;
//! either way it takes the voice that has been left alone for the longest
//! time. Time is a
//! wrapping 32-bit count of output samples, and two times are compared by
//! the sign of their wrapping difference: the comparison is meaningful while
//! no voice has been left alone for 2^31 samples or more.

use crate::midi::MidiData;
use crate::midi::MidiNote;
use vstd::prelude::*;

verus! {

/// Two voices of one kind that sound together, slightly detuned against
/// each other.
#[derive(Debug)]
pub struct DetunedPair<T> {
    pub voice: [T; 2],
}

impl<T> DetunedPair<T> {
    pub fn new(voice: [T; 2]) -> (pair: Self)
        ensures
            pair.voice == voice,
    {
        Self { voice }
    }
}

/// Whether a voice stamped `a` counts as touched before one stamped `b`.
pub open spec fn older(a: i32, b: i32) -> bool {
    vstd::wrapping::i32_specs::wrapping_sub(a, b) < 0
}

/// The number of samples since a voice stamped `age` was touched, at time
/// `t`; negative once the voice has been left alone for too long.
pub open spec fn since(t: i32, age: i32) -> i32 {
    vstd::wrapping::i32_specs::wrapping_sub(t, age)
}

/// Whether voice `i` takes the place of voice `best` as the voice that a
/// new note gets: a free voice beats a bound one, and among voices of one
/// kind the older one wins.
pub open spec fn preferred(ages: Seq<i32>, notes: Seq<u8>, i: int, best: int) -> bool {
    if notes[best] != 0 {
        notes[i] == 0 || older(ages[i], ages[best])
    } else {
        notes[i] == 0 && older(ages[i], ages[best])
    }
}

/// The voice that a new note gets, among the first `upto` voices: the
/// voices are compared in order, each with the best one before it.
pub open spec fn chosen(ages: Seq<i32>, notes: Seq<u8>, upto: int) -> int
    decreases upto,
{
    if upto <= 1 {
        0
    } else {
        let best = chosen(ages, notes, upto - 1);
        if preferred(ages, notes, upto - 1, best) {
            upto - 1
        } else {
            best
        }
    }
}

/// No two voices are bound to the same note.
pub open spec fn distinct(notes: Seq<u8>) -> bool {
    forall|i: int, j: int|
        0 <= i < j < notes.len() && notes[i] != 0 ==> notes[i] != notes[j]
}

/// The notes of a pool with no voice bound to `note`.
pub open spec fn unbound(notes: Seq<u8>, note: u8) -> bool {
    forall|i: int| 0 <= i < notes.len() ==> notes[i] != note
}

/// Voice `i` is the first voice that is bound to `note`.
pub open spec fn holds(notes: Seq<u8>, note: u8, i: int) -> bool {
    &&& 0 <= i < notes.len()
    &&& notes[i] == note
    &&& unbound(notes.subrange(0, i), note)
}

/// Voice `voice` is the one that a note-on for `note` gets: the voice that
/// is bound to the note already, if there is one, so that no note is ever
/// bound twice; else the chosen one.
pub open spec fn taken(ages: Seq<i32>, notes: Seq<u8>, note: u8, voice: int) -> bool {
    if note != 0 && !unbound(notes, note) {
        holds(notes, note, voice)
    } else {
        voice == chosen(ages, notes, notes.len() as int)
    }
}

/// A note has one first voice at most.
pub proof fn lemma_holds_one(notes: Seq<u8>, note: u8, i: int, j: int)
    requires
        holds(notes, note, i),
        holds(notes, note, j),
    ensures
        i == j,
{
    if i < j {
        assert(notes.subrange(0, j)[i] == notes[i]);
    } else if j < i {
        assert(notes.subrange(0, i)[j] == notes[j]);
    }
}

/// A note-on takes one voice, and no other.
pub proof fn lemma_taken_one(ages: Seq<i32>, notes: Seq<u8>, note: u8, i: int, j: int)
    requires
        taken(ages, notes, note, i),
        taken(ages, notes, note, j),
    ensures
        i == j,
{
    if note != 0 && !unbound(notes, note) {
        lemma_holds_one(notes, note, i, j);
    }
}

/// The chosen voice is one of the pool.
pub proof fn lemma_chosen_in_range(ages: Seq<i32>, notes: Seq<u8>, upto: int)
    requires
        1 <= upto,
    ensures
        0 <= chosen(ages, notes, upto) < upto,
    decreases upto,
{
    if upto > 1 {
        lemma_chosen_in_range(ages, notes, upto - 1);
    }
}

/// While a voice is free, no bound voice is taken.
pub proof fn lemma_chosen_is_free(ages: Seq<i32>, notes: Seq<u8>, upto: int, free: int)
    requires
        0 <= free < upto,
        notes[free] == 0,
    ensures
        notes[chosen(ages, notes, upto)] == 0,
    decreases upto,
{
    if upto > 1 && free < upto - 1 {
        lemma_chosen_is_free(ages, notes, upto - 1, free);
    }
}

/// Voice stealing takes the voice that was left alone the longest.
///
/// While no voice has been left alone for 2^31 samples or more, the chosen
/// voice has waited at least as long as any other voice that could have
/// been taken: any free voice if the chosen one is free, any voice at all
/// if none is. Of voices that have waited equally long, the first is
/// taken.
pub proof fn lemma_chosen_is_oldest(ages: Seq<i32>, notes: Seq<u8>, t: i32, upto: int, other: int)
    requires
        1 <= upto <= ages.len(),
        0 <= other < upto,
        forall|i: int| 0 <= i < upto ==> since(t, #[trigger] ages[i]) >= 0,
        notes[other] == 0 || notes[chosen(ages, notes, upto)] != 0,
    ensures
        since(t, ages[other]) <= since(t, ages[chosen(ages, notes, upto)]),
        other < chosen(ages, notes, upto) ==> since(t, ages[other]) < since(
            t,
            ages[chosen(ages, notes, upto)],
        ),
    decreases upto,
{
    lemma_chosen_in_range(ages, notes, upto);
    if upto > 1 {
        let best = chosen(ages, notes, upto - 1);
        lemma_chosen_in_range(ages, notes, upto - 1);
        assert(since(t, ages[best]) >= 0);
        assert(since(t, ages[upto - 1]) >= 0);
        if other < upto - 1 {
            if notes[other] == 0 {
                lemma_chosen_is_free(ages, notes, upto - 1, other);
            }
            lemma_chosen_is_oldest(ages, notes, t, upto - 1, other);
        }
    }
}

/// Voice stealing: where every voice is bound, and none has been left
/// alone for 2^31 samples or more, a new note takes a voice that no other
/// voice has waited longer than.
pub proof fn lemma_steals_the_oldest(ages: Seq<i32>, notes: Seq<u8>, t: i32)
    requires
        1 <= ages.len() == notes.len(),
        forall|i: int| 0 <= i < notes.len() ==> notes[i] != 0,
        forall|i: int| 0 <= i < ages.len() ==> since(t, #[trigger] ages[i]) >= 0,
    ensures
        0 <= chosen(ages, notes, ages.len() as int) < ages.len(),
        forall|i: int|
            0 <= i < ages.len() ==> since(t, #[trigger] ages[i]) <= since(
                t,
                ages[chosen(ages, notes, ages.len() as int)],
            ),
{
    let n = ages.len() as int;
    lemma_chosen_in_range(ages, notes, n);
    assert forall|i: int| 0 <= i < n implies since(t, #[trigger] ages[i]) <= since(
        t,
        ages[chosen(ages, notes, n)],
    ) by {
        lemma_chosen_is_oldest(ages, notes, t, n, i);
    }
}

/// Voice stealing, as a note-on does it: where every voice is bound, to
/// other notes, and none has been left alone for 2^31 samples or more, the
/// voice that a further note takes is one of the pool, and no voice has
/// waited longer than it.
pub proof fn lemma_note_on_steals_the_oldest(
    ages: Seq<i32>,
    notes: Seq<u8>,
    note: u8,
    t: i32,
    voice: int,
)
    requires
        1 <= ages.len() == notes.len(),
        forall|i: int| 0 <= i < notes.len() ==> notes[i] != 0,
        unbound(notes, note),
        forall|i: int| 0 <= i < ages.len() ==> since(t, #[trigger] ages[i]) >= 0,
        taken(ages, notes, note, voice),
    ensures
        0 <= voice < ages.len(),
        forall|i: int|
            0 <= i < ages.len() ==> since(t, #[trigger] ages[i]) <= since(t, ages[voice]),
{
    lemma_steals_the_oldest(ages, notes, t);
}

/// While a voice is free, a note-on for a note that is not bound takes a
/// free voice: nothing is stolen.
pub proof fn lemma_note_on_takes_a_free_voice(
    ages: Seq<i32>,
    notes: Seq<u8>,
    note: u8,
    free: int,
    voice: int,
)
    requires
        ages.len() == notes.len(),
        0 <= free < notes.len(),
        notes[free] == 0,
        unbound(notes, note),
        taken(ages, notes, note, voice),
    ensures
        0 <= voice < notes.len(),
        notes[voice] == 0,
{
    lemma_chosen_in_range(ages, notes, notes.len() as int);
    lemma_chosen_is_free(ages, notes, notes.len() as int, free);
}

/// The pool as a mathematical value.
pub struct PoolView<T> {
    pub voices: Seq<T>,
    pub ages: Seq<i32>,
    pub notes: Seq<u8>,
    pub t: i32,
}

/// What the synthesizer is to do with a voice after a note event.
#[derive(Copy, Clone, Debug)]
pub enum VoiceAction {
    /// Tune the voice to the note and trigger it.
    Pluck { voice: usize, note: MidiNote },
    /// Mute the voice. It rings on until it has decayed.
    Mute { voice: usize },
    /// Nothing.
    Ignore,
}

#[derive(Debug)]
pub struct VoicePool<T, const N: usize> {
    voices: [T; N],
    ages: [i32; N],
    note: [u8; N],
    t: i32,
}

pub type VoiceBox4<T> = VoicePool<T, 4>;

pub type VoiceBox6<T> = VoicePool<T, 6>;

pub type VoiceBox<T> = VoicePool<T, 8>;

pub type VoiceBox16<T> = VoicePool<T, 16>;

impl<T, const N: usize> View for VoicePool<T, N> {
    type V = PoolView<T>;

    closed spec fn view(&self) -> PoolView<T> {
        PoolView { voices: self.voices@, ages: self.ages@, notes: self.note@, t: self.t }
    }
}

impl<T, const N: usize> VoicePool<T, N> {
    /// The view of a pool has one age and one note for each of its `N`
    /// voices.
    pub proof fn lemma_view_len(&self)
        ensures
            self@.voices.len() == N,
            self@.ages.len() == N,
            self@.notes.len() == N,
    {
    }

    /// A pool of free voices at time zero.
    pub fn new(voices: [T; N]) -> (pool: Self)
        ensures
            pool@.voices == voices@,
            pool@.ages == Seq::new(N as nat, |i: int| 0i32),
            pool@.notes == Seq::new(N as nat, |i: int| 0u8),
            pool@.t == 0,
            distinct(pool@.notes),
    {
        let pool = Self { voices, ages: [0; N], note: [0; N], t: 0 };
        assert(pool@.ages =~= Seq::new(N as nat, |i: int| 0i32));
        assert(pool@.notes =~= Seq::new(N as nat, |i: int| 0u8));
        pool
    }

    /// The first voice that is bound to `note`, if there is one.
    fn holder(&self, note: u8) -> (found: Option<usize>)
        ensures
            match found {
                Some(i) => holds(self@.notes, note, i as int),
                None => unbound(self@.notes, note),
            },
    {
        let mut i: usize = 0;
        while i < N
            invariant
                i <= N,
                unbound(self@.notes.subrange(0, i as int), note),
            decreases N - i,
        {
            if self.note[i] == note {
                return Some(i);
            }
            assert(self@.notes.subrange(0, i + 1) =~= self@.notes.subrange(0, i as int).push(
                self@.notes[i as int],
            ));
            i += 1;
        }
        assert(self@.notes.subrange(0, N as int) =~= self@.notes);
        None
    }

    /// The voice that a new note gets: a free one before a bound one, and
    /// of those the one left alone for the longest time.
    fn oldest(&self) -> (best: usize)
        requires
            N > 0,
        ensures
            best == chosen(self@.ages, self@.notes, N as int),
            best < N,
    {
        let mut best: usize = 0;
        let mut i: usize = 1;
        while i < N
            invariant
                1 <= i <= N,
                best < N,
                best == chosen(self@.ages, self@.notes, i as int),
            decreases N - i,
        {
            let delta = self.ages[i].wrapping_sub(self.ages[best]);
            if self.note[best] != 0 {
                if self.note[i] == 0 || delta < 0 {
                    best = i;
                }
            } else {
                if self.note[i] == 0 && delta < 0 {
                    best = i;
                }
            }
            i += 1;
        }
        best
    }

    /// Bind `note` to a voice and return the voice's number. The voice is
    /// stamped with the current time.
    ///
    /// A note that is bound already keeps its voice, which is plucked
    /// again: no note is ever bound to two voices.
    pub fn note_on(&mut self, note: u8) -> (best: usize)
        requires
            N > 0,
        ensures
            taken(old(self)@.ages, old(self)@.notes, note, best as int),
            best < N,
            final(self)@ == (PoolView {
                ages: old(self)@.ages.update(best as int, old(self)@.t),
                notes: old(self)@.notes.update(best as int, note),
                ..old(self)@
            }),
            distinct(old(self)@.notes) ==> distinct(final(self)@.notes),
    {
        let held = if note != 0 {
            self.holder(note)
        } else {
            None
        };
        let best = match held {
            Some(voice) => voice,
            None => self.oldest(),
        };

        self.ages[best] = self.t;
        self.note[best] = note;
        best
    }

    /// Release the first voice that is bound to `note` and return its
    /// number, if there is one. The voice is stamped with the current time.
    pub fn note_off(&mut self, note: u8) -> (released: Option<usize>)
        ensures
            match released {
                Some(i) => {
                    &&& i < N
                    &&& holds(old(self)@.notes, note, i as int)
                    &&& final(self)@ == (PoolView {
                        ages: old(self)@.ages.update(i as int, old(self)@.t),
                        notes: old(self)@.notes.update(i as int, 0),
                        ..old(self)@
                    })
                },
                None => unbound(old(self)@.notes, note) && final(self)@ == old(self)@,
            },
            distinct(old(self)@.notes) ==> distinct(final(self)@.notes),
    {
        match self.holder(note) {
            Some(i) => {
                self.ages[i] = self.t;
                self.note[i] = 0;
                Some(i)
            },
            None => None,
        }
    }

    /// Take a note event and say what is to be done with which voice.
    pub fn midi(&mut self, data: &MidiData) -> (action: VoiceAction)
        requires
            N > 0,
        ensures
            match *data {
                MidiData::NoteOn(on) => match action {
                    VoiceAction::Pluck { voice, note } => {
                        &&& note == on
                        &&& voice < N
                        &&& taken(old(self)@.ages, old(self)@.notes, on.note, voice as int)
                        &&& final(self)@ == (PoolView {
                            ages: old(self)@.ages.update(voice as int, old(self)@.t),
                            notes: old(self)@.notes.update(voice as int, on.note),
                            ..old(self)@
                        })
                    },
                    _ => false,
                },
                MidiData::NoteOff(off) => match action {
                    VoiceAction::Mute { voice } => {
                        &&& voice < N
                        &&& holds(old(self)@.notes, off.note, voice as int)
                        &&& final(self)@ == (PoolView {
                            ages: old(self)@.ages.update(voice as int, old(self)@.t),
                            notes: old(self)@.notes.update(voice as int, 0),
                            ..old(self)@
                        })
                    },
                    VoiceAction::Ignore => unbound(old(self)@.notes, off.note) && final(self)@
                        == old(self)@,
                    VoiceAction::Pluck { .. } => false,
                },
                MidiData::Raw(_) => action == VoiceAction::Ignore && final(self)@ == old(self)@,
            },
            distinct(old(self)@.notes) ==> distinct(final(self)@.notes),
    {
        match data {
            MidiData::NoteOn(note) => {
                let voice = self.note_on(note.note);
                VoiceAction::Pluck { voice, note: *note }
            },
            MidiData::NoteOff(note) => {
                match self.note_off(note.note) {
                    Some(voice) => VoiceAction::Mute { voice },
                    None => VoiceAction::Ignore,
                }
            },
            MidiData::Raw(_) => VoiceAction::Ignore,
        }
    }

    /// Count one output sample.
    pub fn tick(&mut self)
        ensures
            final(self)@ == (PoolView {
                t: vstd::wrapping::i32_specs::wrapping_add(old(self)@.t, 1),
                ..old(self)@
            }),
    {
        self.t = self.t.wrapping_add(1);
    }

    /// Voice `i`, to play it.
    pub fn voice_mut(&mut self, i: usize) -> (voice: &mut T)
        requires
            i < N,
        ensures
            *voice == old(self)@.voices[i as int],
            final(self)@ == (PoolView {
                voices: old(self)@.voices.update(i as int, *final(voice)),
                ..old(self)@
            }),
    {
        &mut self.voices[i]
    }
}

} // verus!
