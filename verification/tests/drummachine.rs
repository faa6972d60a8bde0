use oxidamp::drummachine::coefficient_cutoff;
use oxidamp::drummachine::coefficient_quality;
use oxidamp::AudioContext;
use oxidamp::DrumMachine;
use oxidamp::DrumMachineConfig;
use oxidamp::Excitation;
use oxidamp::Pattern;
use oxidamp::SampleBank;

fn table(len: usize, k: usize) -> &'static [i8] {
    let samples: Vec<i8> = (0..len).map(|i| (((i * k) % 251) as i32 - 125) as i8).collect();
    Box::leak(samples.into_boxed_slice())
}

fn bank() -> SampleBank {
    SampleBank { kick: table(300, 7), snare: table(200, 11), hihat: table(100, 13) }
}

fn mix_of(e: Excitation) -> i32 {
    match e {
        Excitation::Fresh { mix, .. } => mix,
        Excitation::Held => panic!("a held sample has no mix"),
    }
}

/// Just crank some beats and make sure we don't panic!
#[test]
fn test_drummachine() {
    let ctx = AudioContext::new(48000);
    let mut dm = DrumMachine::new(bank());
    dm.setup(&ctx);
    let mut buf = [Excitation::Held; 1024];

    for _ in 0..100 {
        dm.process(&mut buf);
    }
}

#[test]
fn test_drummachine_is_loud_and_bounded() {
    let ctx = AudioContext::new(48000);
    let mut dm = DrumMachine::new(bank());
    dm.setup(&ctx);
    let mut buf = [Excitation::Held; 1024];

    let mut sum: i64 = 0;
    let mut sum_abs: i64 = 0;
    let mut max = i32::MIN;
    let mut min = i32::MAX;
    for _ in 0..100 {
        dm.process(&mut buf);
        for (i, e) in buf.iter().enumerate() {
            match *e {
                Excitation::Fresh { mix, .. } => {
                    assert_eq!(i % 2, 0);
                    assert!(-384 <= mix && mix <= 381);
                    sum += mix as i64;
                    sum_abs += (mix as i64).abs();
                    max = max.max(mix);
                    min = min.min(mix);
                }
                Excitation::Held => assert_eq!(i % 2, 1),
            }
        }
    }
    assert_eq!(sum, -4785);
    assert_eq!(sum_abs, 70149);
    assert_eq!(max, 232);
    assert_eq!(min, -235);
}

#[test]
fn test_drummachine_every_other_sample_is_held() {
    let ctx = AudioContext::new(48000);
    let mut dm = DrumMachine::new(bank());
    dm.setup(&ctx);
    for _ in 0..1000 {
        assert!(matches!(dm.step(), Excitation::Fresh { .. }));
        assert_eq!(dm.step(), Excitation::Held);
    }
}

#[test]
fn test_drummachine_lead_in() {
    // The first step arms the bass drum 300 - 64 + (16807 & 255) samples
    // before the end of its table: 103 mix samples of silence, then the
    // sample from its start.
    let ctx = AudioContext::new(48000);
    let mut dm = DrumMachine::new(bank());
    dm.setup(&ctx);
    let out: Vec<Excitation> = (0..280).map(|_| dm.step()).collect();
    for i in 0..103 {
        assert_eq!(out[2 * i], Excitation::Fresh { mix: 0, retune: None });
    }
    let expected = [-125, -118, -111, -104, -97, -90, -83, -76, -69, -62];
    for (i, e) in expected.iter().enumerate() {
        assert_eq!(mix_of(out[206 + 2 * i]), *e);
    }
    assert_eq!(mix_of(out[276]), 120);
    assert_eq!(mix_of(out[278]), -124);
}

#[test]
fn test_drummachine_retunes_before_the_beat() {
    // 24000 * 60 / 112 mix samples to the step: the counter is at zero
    // after 12857 of them, and only then a coefficient set is named
    let ctx = AudioContext::new(48000);
    let mut dm = DrumMachine::new(bank());
    dm.setup(&ctx);
    let mut retunes = Vec::new();
    for i in 0..80000 {
        if let Excitation::Fresh { retune: Some(set), .. } = dm.step() {
            assert!(set < 16);
            retunes.push((i, set));
        }
    }
    assert_eq!(retunes, [(25714, 9), (51430, 8), (77146, 3)]);
}

#[test]
fn test_drummachine_process_is_step_by_step() {
    let ctx = AudioContext::new(48000);
    let mut stepped = DrumMachine::new(bank());
    stepped.setup(&ctx);
    let mut processed = DrumMachine::new(bank());
    processed.setup(&ctx);
    let mut buf = [Excitation::Held; 999];
    for _ in 0..60 {
        processed.process(&mut buf);
        for e in buf {
            assert_eq!(e, stepped.step());
        }
    }
}

#[test]
fn test_drummachine_config() {
    let mut dm = DrumMachine::new(bank());
    let config = dm.config();
    assert_eq!(config.beats_per_minute, 112);
    assert_eq!(config.pattern, Pattern::Basic4Beat);
    let default = DrumMachineConfig::default();
    assert_eq!(default.beats_per_minute, 112);
    assert_eq!(default.pattern, Pattern::Basic4Beat);

    dm.set_config(DrumMachineConfig { beats_per_minute: 120, pattern: Pattern::Swing8Beat });
    let config = dm.config();
    assert_eq!(config.beats_per_minute, 120);
    assert_eq!(config.pattern, Pattern::Swing8Beat);
}

#[test]
fn test_drummachine_set_config_restarts_the_pattern() {
    let ctx = AudioContext::new(48000);
    let mut dm = DrumMachine::new(bank());
    dm.setup(&ctx);
    for _ in 0..1001 {
        dm.step();
    }
    dm.set_config(DrumMachineConfig { beats_per_minute: 120, pattern: Pattern::Swing8Beat });

    // the change does not touch the alternation of new and held samples,
    // nor the voices that play
    assert_eq!(dm.step(), Excitation::Held);
    assert_eq!(dm.step(), Excitation::Fresh { mix: -90, retune: None });

    // three steps to the beat: 24000 * 60 / (120 * 3) = 4000 mix samples
    let mut retunes = vec![];
    let mut sum: i64 = 0;
    let mut sum_abs: i64 = 0;
    sum += -90;
    sum_abs += 90;
    for i in 2..30000 {
        if let Excitation::Fresh { mix, retune } = dm.step() {
            sum += mix as i64;
            sum_abs += (mix as i64).abs();
            if let Some(set) = retune {
                retunes.push((i, set));
            }
        }
    }
    assert_eq!(retunes, [(8001, 2), (16003, 8), (24005, 14)]);
    assert_eq!(sum, -2606);
    assert_eq!(sum_abs, 45674);
}

#[test]
fn test_drummachine_without_time() {
    // at a sampling frequency of 1 Hz a step has no length: every mix
    // sample starts one, and names a coefficient set
    let ctx = AudioContext::new(1);
    let short = SampleBank { kick: table(64, 7), snare: table(64, 11), hihat: table(64, 13) };
    let mut dm = DrumMachine::new(short);
    dm.setup(&ctx);
    let out: Vec<Excitation> = (0..8).map(|_| dm.step()).collect();
    assert_eq!(
        out,
        [
            Excitation::Fresh { mix: 0, retune: Some(9) },
            Excitation::Held,
            Excitation::Fresh { mix: 117, retune: Some(8) },
            Excitation::Held,
            Excitation::Fresh { mix: -123, retune: Some(3) },
            Excitation::Held,
            Excitation::Fresh { mix: 0, retune: Some(5) },
            Excitation::Held,
        ]
    );
}

#[test]
fn test_drummachine_before_setup() {
    // with no sampling frequency yet, a step has no length either
    let mut dm = DrumMachine::new(bank());
    assert!(matches!(dm.step(), Excitation::Fresh { retune: Some(_), .. }));
    assert_eq!(dm.step(), Excitation::Held);
    assert!(matches!(dm.step(), Excitation::Fresh { retune: Some(_), .. }));
}

#[test]
fn test_drummachine_without_tempo() {
    // without a tempo the first step never ends
    let ctx = AudioContext::new(48000);
    let mut dm = DrumMachine::new(bank());
    dm.setup(&ctx);
    dm.set_config(DrumMachineConfig { beats_per_minute: 0, pattern: Pattern::Rock8Beat });
    for _ in 0..100000 {
        if let Excitation::Fresh { retune, .. } = dm.step() {
            assert_eq!(retune, None);
        }
    }
}

#[test]
fn test_sample_bank_lookup() {
    let bank = bank();
    assert_eq!(bank.lookup_sample(0).len(), 300);
    assert_eq!(bank.lookup_sample(1).len(), 200);
    assert_eq!(bank.lookup_sample(4).len(), 100);
    assert_eq!(bank.lookup_sample(0)[1], -118);
    assert_eq!(bank.lookup_sample(1)[1], -114);
    assert_eq!(bank.lookup_sample(4)[1], -112);
}

#[test]
fn test_sample_bank_usable() {
    assert!(bank().usable());
    let shortest = SampleBank { kick: table(64, 1), snare: table(64, 1), hihat: table(64, 1) };
    assert!(shortest.usable());
    // a voice needs 64 samples of lead-in
    for short in 0..3 {
        let len = |voice: usize| if voice == short { 63 } else { 64 };
        let bank = SampleBank { kick: table(len(0), 1), snare: table(len(1), 1), hihat: table(len(2), 1) };
        assert!(!bank.usable());
    }
}

#[test]
fn test_coefficient_sets() {
    assert_eq!(coefficient_cutoff(0), 9000);
    assert_eq!(coefficient_cutoff(1), 9050);
    assert_eq!(coefficient_cutoff(15), 9750);
    let steps: Vec<usize> = (0..16).map(coefficient_quality).collect();
    assert_eq!(steps, [0, 1, 2, 3, 0, 1, 2, 3, 0, 1, 2, 3, 0, 1, 2, 3]);
}
