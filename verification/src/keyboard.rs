//! The piano keyboard of the synthesizer: which key is black, which key a
//! pointer touches, and the note events that a change of key gives rise to.

use crate::midi::MidiData;
use crate::midi::MidiNote;
use itertools::Itertools;
use std::cmp::Ordering;
use vstd::prelude::*;

verus! {

/// The number of keys on the keyboard: two octaves and a C.
pub const NUM_KEYS: u8 = 25;

/// The note of the lowest key.
pub const LOWEST_NOTE: u8 = 36;

/// The velocity of every note that the keyboard plays.
pub const VELOCITY: u8 = 127;

/// Whether `tone`, counted in semitones from a C, is a black key.
pub open spec fn black(tone: u8) -> bool {
    let degree = tone % 12;
    degree == 1 || degree == 3 || degree == 6 || degree == 8 || degree == 10
}

pub fn is_black(tone: u8) -> (b: bool)
    ensures
        b == black(tone),
{
    match tone % 12 {
        1 | 3 | 6 | 8 | 10 => true,
        _ => false,
    }
}

/// A key, without its place on the screen.
#[derive(Clone, Copy, Debug)]
pub struct PianoKey {
    pub tone: u8,
    pub is_black: bool,
}

/// The white keys of `keys`, in their order.
pub open spec fn whites(keys: Seq<PianoKey>) -> Seq<PianoKey> {
    keys.filter(|key: PianoKey| !key.is_black)
}

/// The black keys of `keys`, in their order.
pub open spec fn blacks(keys: Seq<PianoKey>) -> Seq<PianoKey> {
    keys.filter(|key: PianoKey| key.is_black)
}

/// Of the keys under the pointer, the one that is touched: the black keys
/// lie on top of the white ones, and among keys of one colour the last one
/// counts.
pub open spec fn topmost(hits: Seq<PianoKey>) -> Option<u8> {
    let layers = whites(hits) + blacks(hits);
    if layers.len() == 0 {
        None
    } else {
        Some(layers.last().tone)
    }
}

/// A black key under the pointer hides every white one: the key touched
/// is then the last black key. Without a black key it is the last key.
pub proof fn lemma_topmost(hits: Seq<PianoKey>)
    ensures
        hits.len() == 0 <==> topmost(hits) is None,
        hits.len() > 0 && blacks(hits).len() == 0 ==> topmost(hits) == Some(hits.last().tone),
        blacks(hits).len() > 0 ==> exists|i: int|
            0 <= i < hits.len() && hits[i].is_black && topmost(hits) == Some(#[trigger] hits[i].tone)
                && forall|j: int| i < j < hits.len() ==> !hits[j].is_black,
    decreases hits.len(),
{
    reveal(Seq::filter);
    if hits.len() > 0 {
        let before = hits.drop_last();
        lemma_topmost(before);
        if hits.last().is_black {
            assert(blacks(hits) == blacks(before).push(hits.last()));
            assert(topmost(hits) == Some(hits[hits.len() - 1].tone));
        } else {
            assert(blacks(hits) == blacks(before));
            assert(whites(hits) == whites(before).push(hits.last()));
            if blacks(hits).len() > 0 {
                let i = choose|i: int|
                    0 <= i < before.len() && before[i].is_black && topmost(before) == Some(
                        #[trigger] before[i].tone,
                    ) && forall|j: int| i < j < before.len() ==> !before[j].is_black;
                assert(hits[i] == before[i]);
                assert(topmost(hits) == Some(hits[i].tone));
                assert forall|j: int| i < j < hits.len() implies !hits[j].is_black by {
                    if j < before.len() {
                        assert(hits[j] == before[j]);
                    }
                }
            }
        }
    }
}

/// The order of two keys by colour: white before black.
pub fn colour_order(a: &PianoKey, b: &PianoKey) -> (order: Ordering)
    ensures
        a.is_black == b.is_black <==> order == Ordering::Equal,
        !a.is_black && b.is_black <==> order == Ordering::Less,
        a.is_black && !b.is_black <==> order == Ordering::Greater,
{
    if a.is_black == b.is_black {
        Ordering::Equal
    } else if b.is_black {
        Ordering::Less
    } else {
        Ordering::Greater
    }
}

/// itertools' `sorted_by`, with `colour_order` as the order.
///
/// `sorted_by` collects the items and sorts them with the stable sort of
/// the standard library. The order knows two classes, white and black, so
/// the sorted keys are the white ones, in the order they came in, and then
/// the black ones, in the order they came in. This is taken on trust.
#[verifier::external_body]
fn sorted_by_colour(keys: Vec<PianoKey>) -> (sorted: Vec<PianoKey>)
    ensures
        sorted@ == whites(keys@) + blacks(keys@),
{
    keys.into_iter().sorted_by(|a, b| colour_order(a, b)).collect()
}

/// The tone of the key that a pointer touches, given the keys that lie
/// under it; none if it touches no key.
pub fn touched(hits: Vec<PianoKey>) -> (tone: Option<u8>)
    ensures
        tone == topmost(hits@),
{
    let layers = sorted_by_colour(hits);
    if layers.len() == 0 {
        None
    } else {
        Some(layers[layers.len() - 1].tone)
    }
}

/// The state of the synthesizer's control surface.
#[derive(Clone, Copy, Debug)]
pub struct SynthApp {
    pub active: bool,
    pub tone: Option<u8>,
}

/// The note event for the key `tone`, if there is a key: a note on or a
/// note off for the note that many semitones above the lowest.
pub open spec fn key_event(tone: Option<u8>, on: bool) -> Option<MidiData> {
    match tone {
        Some(tone) => {
            let note = MidiNote { note: (tone + LOWEST_NOTE) as u8, velocity: VELOCITY };
            if on {
                Some(MidiData::NoteOn(note))
            } else {
                Some(MidiData::NoteOff(note))
            }
        },
        None => None,
    }
}

/// Whether `tone` is a key whose note has a number.
pub open spec fn playable(tone: Option<u8>) -> bool {
    match tone {
        Some(tone) => tone + LOWEST_NOTE <= u8::MAX,
        None => true,
    }
}

impl SynthApp {
    pub fn new() -> (app: Self)
        ensures
            !app.active,
            app.tone is None,
    {
        Self { active: false, tone: None }
    }

    /// Take the key that is touched now and return the note events that the
    /// change gives rise to: a note off for the key that was touched before
    /// and a note on for the new one, in this order; nothing if the key is
    /// the same.
    pub fn touch(&mut self, tone: Option<u8>) -> (events: (Option<MidiData>, Option<MidiData>))
        requires
            playable(old(self).tone),
            playable(tone),
        ensures
            final(self).tone == tone,
            final(self).active == old(self).active,
            old(self).tone == tone ==> events == (None::<MidiData>, None::<MidiData>),
            old(self).tone != tone ==> events == (
                key_event(old(self).tone, false),
                key_event(tone, true),
            ),
    {
        // generate the appropriate midi events
        if !same_key(self.tone, tone) {
            let off = match self.tone {
                Some(tone) => Some(MidiData::NoteOff(MidiNote::new(tone + LOWEST_NOTE, VELOCITY))),
                None => None,
            };
            self.tone = tone;
            let on = match tone {
                Some(tone) => Some(MidiData::NoteOn(MidiNote::new(tone + LOWEST_NOTE, VELOCITY))),
                None => None,
            };
            (off, on)
        } else {
            (None, None)
        }
    }
}

fn same_key(a: Option<u8>, b: Option<u8>) -> (same: bool)
    ensures
        same == (a == b),
{
    match (a, b) {
        (Some(x), Some(y)) => x == y,
        (None, None) => true,
        _ => false,
    }
}

} // verus!
