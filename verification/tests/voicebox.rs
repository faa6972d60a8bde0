use oxidamp::DetunedPair;
use oxidamp::MidiData;
use oxidamp::MidiNote;
use oxidamp::VoiceAction;
use oxidamp::VoiceBox;
use oxidamp::VoiceBox16;
use oxidamp::VoiceBox4;
use oxidamp::VoiceBox6;
use oxidamp::VoicePool;

#[test]
fn test_free_voices_are_taken_in_order() {
    let mut pool = VoiceBox4::new([(); 4]);
    assert_eq!(pool.note_on(60), 0);
    assert_eq!(pool.note_on(62), 1);
    assert_eq!(pool.note_on(64), 2);
    assert_eq!(pool.note_on(65), 3);
}

#[test]
fn test_voice_stealing() {
    // one note more than there are voices: the voice that was bound first
    // is taken, which is the one left alone for the longest time
    let mut pool = VoiceBox::new([(); 8]);
    for (i, note) in (60..68).enumerate() {
        assert_eq!(pool.note_on(note), i);
        pool.tick();
    }
    assert_eq!(pool.note_on(68), 0);
    pool.tick();
    assert_eq!(pool.note_on(69), 1);

    // the stolen voice is bound to the new note, and no longer to the old
    assert_eq!(pool.note_off(60), None);
    assert_eq!(pool.note_off(68), Some(0));
}

#[test]
fn test_voice_stealing_at_one_time() {
    // with all voices bound at the same time none is older: the first goes
    let mut pool = VoiceBox6::new([(); 6]);
    for (i, note) in (60..66).enumerate() {
        assert_eq!(pool.note_on(note), i);
    }
    assert_eq!(pool.note_on(66), 0);
    assert_eq!(pool.note_on(67), 0);
}

#[test]
fn test_voice_stealing_takes_the_oldest() {
    let mut pool = VoiceBox4::new([(); 4]);
    for note in 60..64 {
        pool.note_on(note);
        pool.tick();
    }
    // touch the voices again in another order: 2, 0, 3, 1
    for note in [62, 60, 63, 61] {
        let voice = pool.note_off(note).unwrap();
        pool.tick();
        assert_eq!(pool.note_on(note), voice);
        pool.tick();
    }
    assert_eq!(pool.note_on(70), 2);
    pool.tick();
    assert_eq!(pool.note_on(71), 0);
    pool.tick();
    assert_eq!(pool.note_on(72), 3);
    pool.tick();
    assert_eq!(pool.note_on(73), 1);
    pool.tick();
    assert_eq!(pool.note_on(74), 2);
}

#[test]
fn test_released_voice_is_preferred() {
    let mut pool = VoiceBox4::new([(); 4]);
    for note in 60..64 {
        pool.note_on(note);
        pool.tick();
    }
    // the youngest voice is released: it is free, so it goes first
    assert_eq!(pool.note_off(63), Some(3));
    pool.tick();
    assert_eq!(pool.note_on(70), 3);
}

#[test]
fn test_oldest_free_voice_is_preferred() {
    let mut pool = VoiceBox4::new([(); 4]);
    for note in 60..64 {
        pool.note_on(note);
        pool.tick();
    }
    assert_eq!(pool.note_off(62), Some(2));
    pool.tick();
    assert_eq!(pool.note_off(61), Some(1));
    pool.tick();
    // voice 2 was released before voice 1
    assert_eq!(pool.note_on(70), 2);
    assert_eq!(pool.note_on(71), 1);
    assert_eq!(pool.note_on(72), 0);
}

#[test]
fn test_note_off() {
    let mut pool = VoiceBox16::new([(); 16]);
    assert_eq!(pool.note_off(60), None);
    pool.note_on(60);
    pool.note_on(61);
    assert_eq!(pool.note_off(61), Some(1));
    assert_eq!(pool.note_off(61), None);
    assert_eq!(pool.note_off(60), Some(0));
    assert_eq!(pool.note_off(60), None);
}

#[test]
fn test_note_on_twice_keeps_one_voice() {
    // a note that is bound already is played on its voice again
    let mut pool = VoiceBox4::new([(); 4]);
    assert_eq!(pool.note_on(60), 0);
    pool.tick();
    assert_eq!(pool.note_on(62), 1);
    pool.tick();
    assert_eq!(pool.note_on(60), 0);
    assert_eq!(pool.note_on(62), 1);

    // so one note off releases it
    assert_eq!(pool.note_off(60), Some(0));
    assert_eq!(pool.note_off(60), None);
    assert_eq!(pool.note_off(62), Some(1));
    assert_eq!(pool.note_off(62), None);
}

#[test]
fn test_note_on_twice_stamps_the_voice() {
    // the second note on makes the voice the youngest: it is stolen last
    let mut pool = VoicePool::<(), 3>::new([(); 3]);
    for note in 60..63 {
        pool.note_on(note);
        pool.tick();
    }
    assert_eq!(pool.note_on(60), 0);
    pool.tick();
    assert_eq!(pool.note_on(70), 1);
    pool.tick();
    assert_eq!(pool.note_on(71), 2);
    pool.tick();
    assert_eq!(pool.note_on(72), 0);
}

#[test]
fn test_note_on_twice_with_all_voices_bound() {
    // nothing is stolen for a note that has a voice
    let mut pool = VoiceBox4::new([(); 4]);
    for note in 60..64 {
        pool.note_on(note);
        pool.tick();
    }
    assert_eq!(pool.note_on(63), 3);
    assert_eq!(pool.note_on(61), 1);
    for (voice, note) in (60..64).enumerate() {
        assert_eq!(pool.note_off(note), Some(voice));
    }
}

#[test]
fn test_midi_note_on_twice() {
    let mut pool = VoiceBox4::new([(); 4]);
    let c4 = MidiData::NoteOn(MidiNote::new(60, 127));
    assert!(matches!(pool.midi(&c4), VoiceAction::Pluck { voice: 0, .. }));
    assert!(matches!(pool.midi(&c4), VoiceAction::Pluck { voice: 0, .. }));
    let off = MidiData::NoteOff(MidiNote::new(60, 0));
    assert!(matches!(pool.midi(&off), VoiceAction::Mute { voice: 0 }));
    assert!(matches!(pool.midi(&off), VoiceAction::Ignore));
}

#[test]
fn test_note_zero_binds_nothing() {
    // note 0 is the mark of a free voice: a note on for it leaves the voice
    // free, and the next note takes the oldest free voice as ever
    let mut pool = VoiceBox4::new([(); 4]);
    pool.tick();
    assert_eq!(pool.note_on(0), 0);
    pool.tick();
    assert_eq!(pool.note_on(0), 1);
    pool.tick();
    assert_eq!(pool.note_on(60), 2);
}

#[test]
fn test_ages_wrap() {
    // the clock wraps, and the comparison of ages with it
    let mut pool = VoicePool::<(), 2>::new([(); 2]);
    for _ in 0..i32::MAX as u32 - 5 {
        pool.tick();
    }
    assert_eq!(pool.note_on(60), 0);
    for _ in 0..10 {
        pool.tick();
    }
    assert_eq!(pool.note_on(61), 1);
    pool.tick();
    // voice 0 was bound before the wrap, voice 1 after it
    assert_eq!(pool.note_on(62), 0);
    pool.tick();
    assert_eq!(pool.note_on(63), 1);
}

#[test]
fn test_midi() {
    let mut pool = VoiceBox4::new([(); 4]);
    let c4 = MidiNote::new(60, 127);
    let d4 = MidiNote::new(62, 100);

    match pool.midi(&MidiData::NoteOn(c4)) {
        VoiceAction::Pluck { voice, note } => {
            assert_eq!(voice, 0);
            assert_eq!(note.note, 60);
            assert_eq!(note.velocity, 127);
        }
        _ => panic!("a note on plucks a voice"),
    }
    assert!(matches!(
        pool.midi(&MidiData::NoteOn(d4)),
        VoiceAction::Pluck { voice: 1, note: MidiNote { note: 62, velocity: 100 } }
    ));
    assert!(matches!(pool.midi(&MidiData::Raw((176, 7, 100))), VoiceAction::Ignore));
    assert!(matches!(pool.midi(&MidiData::NoteOff(d4)), VoiceAction::Mute { voice: 1 }));
    assert!(matches!(pool.midi(&MidiData::NoteOff(d4)), VoiceAction::Ignore));
    assert!(matches!(pool.midi(&MidiData::NoteOff(c4)), VoiceAction::Mute { voice: 0 }));
}

#[test]
fn test_voice_mut() {
    let mut pool = VoicePool::<u32, 3>::new([10, 20, 30]);
    *pool.voice_mut(1) += 5;
    assert_eq!(*pool.voice_mut(0), 10);
    assert_eq!(*pool.voice_mut(1), 25);
    assert_eq!(*pool.voice_mut(2), 30);
}

#[test]
fn test_detuned_pair() {
    let pair = DetunedPair::new([1u8, 2u8]);
    assert_eq!(pair.voice, [1, 2]);
}
