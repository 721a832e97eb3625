use aesound::audio_file::AudioFile;
use aesound::fixed::{angle, sine, ONE};
use aesound::generator::{Envelope, Filter, Generator, WaveType};
use aesound::mixer::{Mixer, MAX_VOICES, NOTES};
use aesound::sound_source::SoundSource;

const RATE: u32 = 48000;

fn gen(wave: WaveType, freq: u32, env: Envelope) -> Generator {
    Generator::new(wave, freq, env, ONE as i32, Filter::Unfiltered)
}

fn at_tick(mut g: Generator, tick: u32) -> Generator {
    g.tick = tick;
    g
}

#[test]
fn attack_decay_envelope_shape() {
    let g = gen(WaveType::Saw, 440_000, Envelope::AttackDecay(100, 200));
    assert_eq!(g.calcEnvelope(0, RATE), 0);
    assert_eq!(g.calcEnvelope(2400, RATE), ONE / 2);
    assert_eq!(g.calcEnvelope(4800, RATE), ONE);
    assert_eq!(g.calcEnvelope(14400, RATE), 0);
    assert!(g.isActive(RATE));
    let g = at_tick(g, 14400);
    assert!(g.isActive(RATE));
    let g = at_tick(g, 14401);
    assert!(!g.isActive(RATE));
}

#[test]
fn attack_decay_without_attack_and_without_decay() {
    let g = gen(WaveType::Saw, 440_000, Envelope::AttackDecay(0, 500));
    assert_eq!(g.calcEnvelope(0, RATE), ONE);
    assert_eq!(g.calcEnvelope(12000, RATE), ONE / 2 + 1);
    let g = gen(WaveType::Saw, 440_000, Envelope::AttackDecay(100, 0));
    assert_eq!(g.calcEnvelope(4800, RATE), ONE);
    assert_eq!(g.calcEnvelope(4800 + 24000, RATE), ONE - ONE / 2);
    assert!(!at_tick(g, 4801).isActive(RATE));
}

#[test]
fn liveness_ends_once() {
    let envs = [
        Envelope::Constant(10),
        Envelope::AttackDecay(5, 5),
        Envelope::AttackDecay(-3, 10),
        Envelope::Sine(2000, 10),
    ];
    for env in envs {
        let mut g = gen(WaveType::Saw, 100_000, env);
        let mut seen_inactive = false;
        for _ in 0..4000 {
            let a = g.isActive(8000);
            if seen_inactive {
                assert!(!a);
            }
            if !a {
                seen_inactive = true;
            }
            g.get(8000);
        }
        assert!(seen_inactive);
    }
}

#[test]
fn square_period_and_duty() {
    // 480 Hz at 48 kHz: a period of 100 samples.
    let mut high = 0;
    for t in 0..100u32 {
        let a = at_tick(gen(WaveType::Square(500), 480_000, Envelope::Constant(1000)), t).wave_at(0, RATE);
        let b = at_tick(gen(WaveType::Square(500), 480_000, Envelope::Constant(1000)), t + 100).wave_at(0, RATE);
        assert_eq!(a, b);
        assert!(a == 0 || a == ONE);
        if a == ONE {
            high += 1;
        }
    }
    assert_eq!(high, 49);
}

#[test]
fn saw_range_and_period() {
    for t in 0..300u32 {
        let a = at_tick(gen(WaveType::Saw, 480_000, Envelope::Constant(1000)), t).wave_at(0, RATE);
        let b = at_tick(gen(WaveType::Saw, 480_000, Envelope::Constant(1000)), t + 100).wave_at(0, RATE);
        assert_eq!(a, b);
        assert!(-ONE <= a && a < ONE);
    }
    assert_eq!(at_tick(gen(WaveType::Saw, 480_000, Envelope::Constant(1000)), 0).wave_at(0, RATE), 0);
    assert_eq!(at_tick(gen(WaveType::Saw, 480_000, Envelope::Constant(1000)), 50).wave_at(0, RATE), -ONE);
}

#[test]
fn triangle_and_overdrive() {
    let tri = |t: u32| at_tick(gen(WaveType::Triangle, 480_000, Envelope::Constant(1000)), t).wave_at(0, RATE);
    assert_eq!(tri(0), -ONE);
    assert_eq!(tri(50), ONE);
    let od = at_tick(gen(WaveType::SineOverdrive(2000), 480_000, Envelope::Constant(1000)), 25).wave_at(0, RATE);
    assert_eq!(od, ONE);
    let od = at_tick(gen(WaveType::SineOverdrive(500), 480_000, Envelope::Constant(1000)), 25).wave_at(0, RATE);
    assert_eq!(od, ONE / 2);
}

#[test]
fn fixed_sine_values() {
    assert_eq!(sine(0), 0);
    assert_eq!(sine(16384), ONE);
    assert_eq!(sine(32768), 0);
    assert_eq!(sine(49152), -ONE);
    assert_eq!(angle(25, 480_000, RATE), 16384);
    assert_eq!(angle(100, 480_000, RATE), 0);
}

#[test]
fn sine_phase_shift() {
    let g = gen(WaveType::Sine(90), 480_000, Envelope::Constant(1000));
    assert_eq!(g.wave_at(0, RATE), ONE);
    let g = gen(WaveType::Sine(450), 480_000, Envelope::Constant(1000));
    assert_eq!(g.wave_at(0, RATE), ONE);
}

#[test]
fn low_pass_gain() {
    let g = Generator::new(WaveType::Saw, 440_000, Envelope::Constant(1000), ONE as i32, Filter::LowPass(500_000));
    assert_eq!(g.gain(), 1000);
    let g = Generator::new(WaveType::Saw, 440_000, Envelope::Constant(1000), ONE as i32, Filter::LowPass(439_500));
    assert_eq!(g.gain(), 500);
    let g = Generator::new(WaveType::Saw, 440_000, Envelope::Constant(1000), ONE as i32, Filter::LowPass(437_000));
    assert_eq!(g.gain(), -2000);
    let g = Generator::new(WaveType::Saw, 440_000, Envelope::Constant(1000), ONE as i32, Filter::Notch(1));
    assert_eq!(g.gain(), 1000);
}

#[test]
fn filtered_sample_scaled() {
    // Square high at tick 0 with duty 0: full scale times half gain.
    let mut g = Generator::new(WaveType::Square(0), 480_000, Envelope::Constant(1000), ONE as i32, Filter::LowPass(479_500));
    // Wave at tick 0 is 0 (fraction 0 is not above duty 0); move to tick 1.
    g.tick = 1;
    assert_eq!(g.get(RATE), (ONE / 2) as i32);
}

#[test]
fn sine_tremolo_envelope() {
    let g = gen(WaveType::Saw, 440_000, Envelope::Sine(1000, 1000));
    assert_eq!(g.calcEnvelope(0, RATE), ONE / 2);
    assert_eq!(g.calcEnvelope(12000, RATE), 24576);
    assert_eq!(g.calcEnvelope(48000, RATE), 0);
    let g = gen(WaveType::Saw, 440_000, Envelope::Constant(5));
    assert_eq!(g.calcEnvelope(100000, RATE), ONE);
}

#[test]
fn call_parity_advances_tick_every_second_call() {
    let mut g = gen(WaveType::Saw, 440_000, Envelope::Constant(1000));
    g.get(RATE);
    assert_eq!(g.tick, 0);
    g.get(RATE);
    assert_eq!(g.tick, 1);
    let mut g = gen(WaveType::Saw, 440_000, Envelope::Constant(1000)).with_calls_per_tick(1);
    g.get(RATE);
    assert_eq!(g.tick, 1);
}

#[test]
fn noise_is_seeded_by_frequency() {
    let mut a = gen(WaveType::Noise, 440_000, Envelope::Constant(1000));
    let mut b = gen(WaveType::Noise, 440_000, Envelope::Constant(1000));
    let mut distinct = std::collections::BTreeSet::new();
    for _ in 0..64 {
        let x = a.get(RATE);
        assert_eq!(x, b.get(RATE));
        distinct.insert(x);
    }
    assert!(distinct.len() > 8);
}

#[test]
fn decoder_rejects_three_channels() {
    assert!(AudioFile::new(3).is_none());
    assert!(AudioFile::new(2).is_some());
    assert!(AudioFile::new(1).is_some());
}

#[test]
fn decoder_reads_in_order() {
    let mut f = AudioFile::new(2).unwrap();
    f.push_packet(&vec![1, -2, 3]);
    f.push_packet(&vec![]);
    f.push_packet(&vec![i16::MAX, i16::MIN]);
    let mut out = Vec::new();
    while let Some(s) = f.get() {
        out.push(s);
    }
    assert_eq!(out, vec![1, -2, 3, i16::MAX, i16::MIN]);
    assert!(f.isActive());
    f.finish();
    assert!(!f.isActive());
}

#[test]
fn decoder_normalizes_to_full_scale() {
    let mut f = AudioFile::new(1).unwrap();
    f.push_packet(&vec![i16::MAX, -16384, i16::MIN]);
    let mut s = SoundSource::AudioFile(f);
    assert_eq!(s.get(RATE) as i64, ONE);
    assert_eq!(s.get(RATE), -16384);
    assert_eq!(s.get(RATE) as i64, -ONE);
    assert_eq!(s.get(RATE), 0);
}

#[test]
fn mix_is_exact_sum_then_silence() {
    let mut m = Mixer::new();
    let mut f = AudioFile::new(1).unwrap();
    f.push_packet(&vec![100, 200, 300]);
    f.finish();
    assert!(m.add_source(SoundSource::AudioFile(f)));
    let mut f = AudioFile::new(1).unwrap();
    f.push_packet(&vec![-7, 8]);
    f.finish();
    assert!(m.add_source(SoundSource::AudioFile(f)));
    assert_eq!(m.mix(RATE), 93);
    assert_eq!(m.mix(RATE), 208);
    assert_eq!(m.len(), 2);
    assert_eq!(m.mix(RATE), 300);
    assert_eq!(m.len(), 1);
    assert_eq!(m.mix(RATE), 0);
    assert_eq!(m.len(), 0);
    assert_eq!(m.mix(RATE), 0);
}

#[test]
fn mix_of_generators_matches_each_draw() {
    let mut m = Mixer::new();
    let mut solo_a = gen(WaveType::Saw, 300_000, Envelope::Constant(1000));
    let mut solo_b = gen(WaveType::Noise, 700_000, Envelope::Constant(1000));
    m.add_source(SoundSource::ProcGen(gen(WaveType::Saw, 300_000, Envelope::Constant(1000))));
    m.add_source(SoundSource::ProcGen(gen(WaveType::Noise, 700_000, Envelope::Constant(1000))));
    for _ in 0..200 {
        let expect = solo_a.get(RATE) as i64 + solo_b.get(RATE) as i64;
        assert_eq!(m.mix(RATE), expect);
    }
}

#[test]
fn registry_is_bounded() {
    let mut m = Mixer::new();
    for _ in 0..MAX_VOICES {
        assert!(m.add_source(SoundSource::ProcGen(gen(WaveType::Saw, 1000, Envelope::Constant(1)))));
    }
    assert!(!m.add_source(SoundSource::ProcGen(gen(WaveType::Saw, 1000, Envelope::Constant(1)))));
    assert_eq!(m.len(), MAX_VOICES);
}

#[test]
fn note_on_stacks_harmonics() {
    let mut m = Mixer::new();
    let n = m.add_note(2, 9, WaveType::Saw, 3, Envelope::AttackDecay(0, 1000));
    assert_eq!(n, 3);
    assert_eq!(NOTES[9], 27500);
    let expect = [(110_000, ONE), (220_000, ONE / 2), (330_000, ONE / 3)];
    for (k, (freq, vol)) in expect.iter().enumerate() {
        match &m.sources[k] {
            SoundSource::ProcGen(g) => {
                assert_eq!(g.freq, *freq);
                assert_eq!(g.volume as i64, *vol);
                assert_eq!(g.tick, 0);
            }
            _ => panic!("expected a generator"),
        }
    }
    // 30.87 Hz * 2^17 fits; its second harmonic does not.
    let mut m = Mixer::new();
    assert_eq!(m.add_note(17, 11, WaveType::Saw, 4, Envelope::Constant(10)), 1);
    assert_eq!(m.add_note(40, 0, WaveType::Saw, 4, Envelope::Constant(10)), 0);
}

#[test]
fn sine_end_to_end() {
    let mut m = Mixer::new();
    m.add_source(SoundSource::ProcGen(gen(WaveType::Sine(0), 440_000, Envelope::Constant(1000))));
    assert_eq!(m.mix(RATE), 0);
    // Two draws per tick: tick 48000 (t = 1.0) is still active; tick 48001 is not.
    for _ in 1..96002 {
        m.mix(RATE);
    }
    assert_eq!(m.len(), 1);
    match &m.sources[0] {
        SoundSource::ProcGen(g) => assert_eq!(g.tick, 48001),
        _ => panic!("expected a generator"),
    }
    assert_eq!(m.mix(RATE), 0);
    assert_eq!(m.len(), 0);
}

#[test]
fn envelope_is_not_clipped() {
    let g = gen(WaveType::Saw, 440_000, Envelope::AttackDecay(100, 0));
    assert_eq!(g.calcEnvelope(148_800, RATE), -2 * ONE);
    let g = gen(WaveType::Saw, 440_000, Envelope::Sine(0, 1000));
    assert_eq!(g.calcEnvelope(480_000, RATE), -147_447);
}

#[test]
fn envelope_and_wave_share_a_tick() {
    // Both calls of tick 0 see the envelope at tick 0, where the attack starts at zero.
    let mut g = gen(WaveType::Sine(90), 440_000, Envelope::AttackDecay(100, 200));
    assert_eq!(g.wave_at(0, RATE), ONE);
    assert_eq!(g.get(RATE), 0);
    assert_eq!(g.get(RATE), 0);
    assert_eq!(g.tick, 1);
    assert!(g.get(RATE) > 0);
}

#[test]
fn other_filters_leave_noise_alone() {
    let mut a = Generator::new(WaveType::Noise, 440_000, Envelope::Constant(1000), ONE as i32, Filter::HighPass(5));
    let mut b = Generator::new(WaveType::Noise, 440_000, Envelope::Constant(1000), ONE as i32, Filter::Unfiltered);
    for _ in 0..64 {
        let x = a.get(RATE);
        assert_eq!(x, b.get(RATE));
        assert!(-(ONE as i32) <= x && x <= ONE as i32);
    }
}
