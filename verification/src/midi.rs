//! Note events.

use vstd::prelude::*;

verus! {

#[derive(Copy, Clone, Debug)]
pub struct MidiNote {
    pub note: u8,
    pub velocity: u8,
}

impl MidiNote {
    pub fn new(note: u8, velocity: u8) -> (n: Self)
        ensures
            n.note == note,
            n.velocity == velocity,
    {
        Self { note, velocity }
    }
}

#[derive(Copy, Clone, Debug)]
pub enum MidiData {
    NoteOn(MidiNote),
    NoteOff(MidiNote),
    Raw((u8, u8, u8)),
}

#[derive(Copy, Clone, Debug)]
pub struct MidiEvent {
    pub data: MidiData,
    pub time: u32,
}

/// The status byte of a note-on message on the first channel.
pub const NOTE_ON: u8 = 144;

/// The status byte of a note-off message on the first channel.
pub const NOTE_OFF: u8 = 128;

/// Byte `i` of a packet, or zero where the packet is too short.
pub open spec fn byte_or_zero(bytes: Seq<u8>, i: int) -> u8 {
    if i < bytes.len() {
        bytes[i]
    } else {
        0
    }
}

/// What the first three bytes of a packet mean: a note-on, a note-off, or
/// nothing that the synthesizer acts on.
pub open spec fn decoded(bytes: Seq<u8>) -> MidiData {
    let d0 = byte_or_zero(bytes, 0);
    let d1 = byte_or_zero(bytes, 1);
    let d2 = byte_or_zero(bytes, 2);
    if d0 == NOTE_ON {
        MidiData::NoteOn(MidiNote { note: d1, velocity: d2 })
    } else if d0 == NOTE_OFF {
        MidiData::NoteOff(MidiNote { note: d1, velocity: d2 })
    } else {
        MidiData::Raw((d0, d1, d2))
    }
}

impl MidiEvent {
    /// Decode a raw packet that arrived at `time`.
    ///
    /// This is a very simple decoder: it picks out note on and note off,
    /// and keeps the first three bytes of everything else.
    pub fn from_bytes(bytes: &[u8], time: u32) -> (event: Self)
        ensures
            event.data == decoded(bytes@),
            event.time == time,
    {
        // Grab the first three bytes (or zero if the packet is too short)
        let len = bytes.len();
        let d0: u8 = if len > 0 {
            bytes[0]
        } else {
            0
        };
        let d1: u8 = if len > 1 {
            bytes[1]
        } else {
            0
        };
        let d2: u8 = if len > 2 {
            bytes[2]
        } else {
            0
        };

        MidiEvent {
            data: if d0 == NOTE_ON {
                MidiData::NoteOn(MidiNote::new(d1, d2))
            } else if d0 == NOTE_OFF {
                MidiData::NoteOff(MidiNote::new(d1, d2))
            } else {
                MidiData::Raw((d0, d1, d2))
            },
            time,
        }
    }
}

} // verus!
