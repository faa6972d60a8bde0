//! oxidamp - the verified core of a digital modelling amplifier
//!
//! The crate holds the integer and structural logic of the signal chain:
//! the pseudo-random generator, the delay line and the history of the FIR
//! filter, the metronome, the drum machine's sequencer, the allocation of
//! notes to voices and the keys of the keyboard. Samples in floating point
//! and the arithmetic on them are left to the program around it. Every
//! function carries a contract, and Verus proves each of them but that of
//! the one call into itertools.

pub mod delay;
pub mod drummachine;
pub mod fir;
pub mod keyboard;
pub mod metronome;
pub mod midi;
pub mod tubestage;
pub mod voicebox;
pub mod util;

pub use crate::delay::Delay;
pub use crate::drummachine::DrumMachine;
pub use crate::drummachine::DrumMachineConfig;
pub use crate::drummachine::Excitation;
pub use crate::drummachine::Pattern;
pub use crate::drummachine::SampleBank;
pub use crate::fir::FIR;
pub use crate::keyboard::is_black;
pub use crate::keyboard::touched;
pub use crate::keyboard::PianoKey;
pub use crate::keyboard::SynthApp;
pub use crate::metronome::Control;
pub use crate::metronome::Metronome;
pub use crate::metronome::MetronomeConfig;
pub use crate::metronome::Sawtooth;
pub use crate::midi::MidiData;
pub use crate::midi::MidiEvent;
pub use crate::midi::MidiNote;
pub use crate::tubestage::Tube;
pub use crate::util::rand31;
pub use crate::util::AudioContext;
pub use crate::util::WhiteNoise;
pub use crate::voicebox::DetunedPair;
pub use crate::voicebox::VoiceAction;
pub use crate::voicebox::VoiceBox;
pub use crate::voicebox::VoiceBox16;
pub use crate::voicebox::VoiceBox4;
pub use crate::voicebox::VoiceBox6;
pub use crate::voicebox::VoicePool;
