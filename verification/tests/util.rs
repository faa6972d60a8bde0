use oxidamp::rand31;
use oxidamp::AudioContext;
use oxidamp::WhiteNoise;

#[test]
fn test_rand31_first_ten() {
    let mut seed = 1;

    assert_eq!(16807, rand31(&mut seed));
    assert_eq!(282475249, rand31(&mut seed));
    assert_eq!(1622650073, rand31(&mut seed));
    assert_eq!(984943658, rand31(&mut seed));
    assert_eq!(1144108930, rand31(&mut seed));
    assert_eq!(470211272, rand31(&mut seed));
    assert_eq!(101027544, rand31(&mut seed));
    assert_eq!(1457850878, rand31(&mut seed));
    assert_eq!(1458777923, rand31(&mut seed));
    assert_eq!(2007237709, rand31(&mut seed));
}

#[test]
fn test_rand31_replaces_the_seed() {
    let mut seed = 1;
    let drawn = rand31(&mut seed);
    assert_eq!(seed, drawn);
    assert_eq!(seed, 16807);
}

#[test]
fn test_rand31_is_the_product_modulo_the_mersenne_prime() {
    let modulus: u64 = 0x7fff_ffff;
    let mut seed: u32 = 1;
    for _ in 0..100000 {
        let expected = (16807 * seed as u64) % modulus;
        let drawn = rand31(&mut seed);
        assert_eq!(drawn as u64, expected);
        assert!(1 <= drawn && (drawn as u64) < modulus);
    }
}

#[test]
fn test_rand31_edge_seeds() {
    // zero is a fixed point
    let mut seed = 0;
    assert_eq!(rand31(&mut seed), 0);
    assert_eq!(seed, 0);

    // a multiple of the modulus folds to the modulus, not to zero
    let mut seed = 0x7fff_ffff;
    assert_eq!(rand31(&mut seed), 0x7fff_ffff);
    let mut seed = 0xffff_fffe;
    assert_eq!(rand31(&mut seed), 0x7fff_ffff);

    // the largest seed is 1 modulo the modulus
    let mut seed = 0xffff_ffff;
    assert_eq!(rand31(&mut seed), 16807);

    // the last seed of the cycle
    let mut seed = 0x7fff_fffe;
    assert_eq!(rand31(&mut seed), 0x7fff_ffff - 16807);
}

#[test]
fn test_frand31_spread() {
    // the draws, scaled to [-1, 1) as a sample is
    let mut seed = 1;
    let mut acc = 0.0;
    let mut abs = 0.0;

    for _i in 0..100000 {
        let v = ((rand31(&mut seed) as f32) / 1073741824.0) - 1.0;
        acc += v;
        abs += v.abs();

        assert!(-1.0 <= v && v <= 1.0);
    }

    let mean = acc / 100000.0;
    let abs_mean = abs / 100000.0;

    assert!(mean < 0.001);
    assert!(abs_mean > 0.499);
    assert!(abs_mean < 0.501);
}

#[test]
fn test_white_noise_draws_the_sequence() {
    let mut noise = WhiteNoise::new();
    assert_eq!(noise.draw(), 16807);
    assert_eq!(noise.draw(), 282475249);
    assert_eq!(noise.draw(), 1622650073);

    // two sources are independent and alike
    let mut other = WhiteNoise::new();
    assert_eq!(other.draw(), 16807);
    assert_eq!(noise.draw(), 984943658);
}

#[test]
fn test_audio_context() {
    let ctx = AudioContext::new(48000);
    assert_eq!(ctx.sampling_frequency, 48000);
    let ctx = AudioContext::new(-1);
    assert_eq!(ctx.sampling_frequency, -1);
    assert_eq!(AudioContext::default().sampling_frequency, 0);
}
