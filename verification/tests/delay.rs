use oxidamp::AudioContext;
use oxidamp::Delay;

#[test]
fn test_default_delay() {
    let mut delay = Delay::<f32, 10>::new(0.0);

    for i in -10..11 {
        let f = i as f32 / 10.0;

        if i < 0 {
            assert_eq!(0.0, delay.step(f));
        } else {
            let z = (i - 10) as f32 / 10.0;
            assert_eq!(z, delay.step(f));
        }
    }
}

#[test]
fn test_delay_one() {
    let mut delay = Delay::<f32, 10>::new(0.0);
    let ctx = AudioContext::new(48000);
    delay.setup(&ctx, 1);

    for i in -10..11 {
        let f = i as f32 / 10.0;

        println!("i {}  f {}", i, f);
        if i < -9 {
            assert_eq!(0.0, delay.step(f));
        } else {
            let z = (i - 1) as f32 / 10.0;
            assert_eq!(z, delay.step(f));
        }
    }
}

#[test]
fn test_delay_10() {
    let ctx = AudioContext::new(48000);
    let mut delay = Delay::<f32, 20>::new(0.0);
    delay.setup(&ctx, 10);

    for i in -10..11 {
        let f = i as f32 / 10.0;

        if i < 0 {
            assert_eq!(0.0, delay.step(f));
        } else {
            let z = (i - 10) as f32 / 10.0;
            assert_eq!(z, delay.step(f));
        }
    }
}

#[test]
fn test_delay_round_trip_every_length() {
    for n in 1..=7usize {
        let mut delay = Delay::<u32, 7>::new(0);
        delay.setup(&AudioContext::new(48000), n);
        for i in 0..50u32 {
            let out = delay.step(i + 100);
            if (i as usize) < n {
                assert_eq!(out, 0);
            } else {
                assert_eq!(out, i + 100 - n as u32);
            }
        }
    }
}

#[test]
fn test_delay_process_is_step_by_step() {
    let input: Vec<i32> = (0..40).map(|i| i * i - 7).collect();

    let mut stepped = Delay::<i32, 16>::new(0);
    stepped.setup(&AudioContext::new(48000), 5);
    let by_step: Vec<i32> = input.iter().map(|x| stepped.step(*x)).collect();

    let mut processed = Delay::<i32, 16>::new(0);
    processed.setup(&AudioContext::new(48000), 5);
    let mut by_process = vec![0; input.len()];
    processed.process(&input, &mut by_process);

    assert_eq!(by_step, by_process);
    assert_eq!(by_process[..5], [0, 0, 0, 0, 0]);
    assert_eq!(by_process[5..], input[..35]);

    // and both lines are left alike
    for _ in 0..16 {
        assert_eq!(stepped.step(1), processed.step(1));
    }
}

#[test]
fn test_delay_peek_does_not_move_the_line() {
    let mut delay = Delay::<u8, 4>::new(0);
    delay.setup(&AudioContext::new(48000), 2);
    delay.step(10);
    delay.step(20);
    assert_eq!(delay.peek(), 10);
    assert_eq!(delay.peek(), 10);
    assert_eq!(delay.double_peek(), 20);
    assert_eq!(delay.step(30), 10);
    assert_eq!(delay.peek(), 20);
    assert_eq!(delay.double_peek(), 30);
    assert_eq!(delay.step(40), 20);
    // across the wrap of the buffer
    assert_eq!(delay.peek(), 30);
    assert_eq!(delay.double_peek(), 40);
    assert_eq!(delay.step(50), 30);
    assert_eq!(delay.peek(), 40);
    assert_eq!(delay.double_peek(), 50);
}

#[test]
fn test_delay_setup_keeps_the_buffer() {
    let mut delay = Delay::<u8, 4>::new(0);
    for x in 1..=4 {
        delay.step(x);
    }
    // the last four samples are 1 2 3 4
    delay.setup(&AudioContext::new(48000), 1);
    assert_eq!(delay.peek(), 4);
    delay.setup(&AudioContext::new(48000), 3);
    assert_eq!(delay.peek(), 2);
    delay.setup(&AudioContext::new(48000), 4);
    assert_eq!(delay.peek(), 1);
}

#[test]
fn test_delay_flush_silences_the_line() {
    let mut delay = Delay::<i16, 8>::new(-1);
    delay.setup(&AudioContext::new(48000), 3);
    for x in 0..20 {
        delay.step(x);
    }
    delay.flush();
    // silence in, silence out
    for _ in 0..8 {
        assert_eq!(delay.step(-1), -1);
    }
    // the delay is kept
    assert_eq!(delay.step(5), -1);
    assert_eq!(delay.step(6), -1);
    assert_eq!(delay.step(7), -1);
    assert_eq!(delay.step(8), 5);
}

/// A delay of a whole number of samples and a fraction, the way the
/// synthesizer builds it on the delay line: the result is blended from the
/// sample that falls out and the one after it.
struct FracDelay<const L: usize> {
    delay: Delay<f32, L>,
    weight: f32,
}

impl<const L: usize> FracDelay<L> {
    fn new() -> Self {
        Self { delay: Delay::new(0.0), weight: 0.0 }
    }

    fn setup(&mut self, ctx: &AudioContext, n: f32) {
        let delay = n.ceil();
        self.delay.setup(ctx, delay as usize);
        self.weight = delay - n;
    }

    fn peek(&self) -> f32 {
        let z1 = self.delay.peek();
        let z0 = self.delay.double_peek();
        let w = self.weight;

        z1 * (1.0 - w) + z0 * w
    }

    fn step(&mut self, spl: f32) -> f32 {
        let z1 = self.delay.step(spl);
        let z0 = self.delay.peek();
        let w = self.weight;

        z1 * (1.0 - w) + z0 * w
    }
}

#[test]
fn test_fracdelay_half() {
    let mut fdelay = FracDelay::<10>::new();
    let ctx = AudioContext::new(48000);
    fdelay.setup(&ctx, 0.5);

    assert_eq!(-0.5, fdelay.step(-1.0));
    assert_eq!(-0.6, fdelay.step(-0.2));
    assert_eq!(-0.1, fdelay.step(0.0));
    assert_eq!(0.1, fdelay.step(0.2));
    assert_eq!(0.6, fdelay.step(1.0));
    assert_eq!(0.5, fdelay.step(0.0));
}

#[test]
fn test_fracdelay_one() {
    let mut fdelay = FracDelay::<10>::new();
    let ctx = AudioContext::new(48000);
    fdelay.setup(&ctx, 1.0);

    assert_eq!(0.0, fdelay.step(-1.0));
    assert_eq!(-1.0, fdelay.step(-0.2));
    assert_eq!(-0.2, fdelay.step(0.0));
    assert_eq!(0.0, fdelay.step(0.2));
    assert_eq!(0.2, fdelay.step(1.0));
    assert_eq!(1.0, fdelay.step(0.0));
}

#[test]
fn test_fracdelay_one_and_a_quarter() {
    let mut fdelay = FracDelay::<10>::new();
    let ctx = AudioContext::new(48000);
    fdelay.setup(&ctx, 1.25);

    assert_eq!(0.0, fdelay.step(-1.0));
    assert_eq!(-0.75 + 0.0, fdelay.step(-0.2));
    assert_eq!(-0.15 - 0.25, fdelay.step(0.0));
    assert_eq!(0.0 - 0.05, fdelay.step(0.2));
    assert_eq!(0.15 + 0.0, fdelay.step(1.0));
    assert_eq!(0.75 + 0.05, fdelay.step(0.0));
}

#[test]
fn test_fracdelay_one_and_a_half() {
    let mut fdelay = FracDelay::<10>::new();
    let ctx = AudioContext::new(48000);
    fdelay.setup(&ctx, 1.5);

    assert_eq!(0.0, fdelay.step(-1.0));
    assert_eq!(-0.5, fdelay.step(-0.2));
    assert_eq!(-0.6, fdelay.step(0.0));
    assert_eq!(-0.1, fdelay.step(0.2));
    assert_eq!(0.1, fdelay.step(1.0));
    assert_eq!(0.6, fdelay.step(0.0));
}

#[test]
fn test_fracdelay_peek_blends_two_taps() {
    // with two whole samples in flight, peek sees what the next step
    // returns, all but the sample that the step itself brings in
    let mut fdelay = FracDelay::<10>::new();
    let ctx = AudioContext::new(48000);
    fdelay.setup(&ctx, 2.5);
    for x in [0.25, 0.5, 1.0, -1.0, -0.5] {
        fdelay.step(x);
    }
    // in flight: 1.0, -1.0, -0.5
    assert_eq!(fdelay.peek(), 1.0 * 0.5 + -1.0 * 0.5);
    assert_eq!(fdelay.step(0.0), 1.0 * 0.5 + -1.0 * 0.5);
    assert_eq!(fdelay.peek(), -1.0 * 0.5 + -0.5 * 0.5);
    assert_eq!(fdelay.step(0.0), -1.0 * 0.5 + -0.5 * 0.5);
}
