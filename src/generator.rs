use vstd::prelude::*;
use random::Source;
use vstd::arithmetic::div_mod::{lemma_add_mod_noop, lemma_mod_twice, lemma_small_mod};
use vstd::arithmetic::mul::lemma_mul_is_distributive_add_other_way;
use crate::fixed::{
    ONE, TURN, clamp, lemma_mul_within, lemma_div_within, lemma_tdiv_within, tdiv, sine_of_angle, angle_at, div_toward_zero,
    clamp_i128, sine, angle,
};

verus! {

/// The xorshift128+ state `[seed - 1, seed + 1]` (wrapping) that a noise source
/// seeded with `seed` starts from; never all zero.
pub open spec fn seed_state(seed: u64) -> (u64, u64) {
    (
        if seed == 0 { u64::MAX } else { (seed - 1) as u64 },
        if seed == u64::MAX { 0u64 } else { (seed + 1) as u64 },
    )
}

/// Relies on random::default, which builds `Xorshift128Plus::new([seed.wrapping_sub(1),
/// seed.wrapping_add(1)])`; the state is read back through `From<Xorshift128Plus> for [u64; 2]`.
#[verifier::external_body]
fn seeded_state(seed: u64) -> (r: (u64, u64))
    ensures
        r == seed_state(seed),
{
    let s: [u64; 2] = random::default(seed).into();
    (s[0], s[1])
}

/// The state after one `i16` draw from the xorshift128+ state `s`, and the draw.
pub uninterp spec fn noise_read(s: (u64, u64)) -> ((u64, u64), i16);

/// Relies on random::Xorshift128Plus built from `[s.0, s.1]` (which must not be all
/// zero) and Source::read::<i16>: the next state and the draw depend on `s` alone.
#[verifier::external_body]
fn read_noise(s: (u64, u64)) -> (r: ((u64, u64), i16))
    requires
        s.0 != 0 || s.1 != 0,
    ensures
        r == noise_read(s),
{
    let mut src = random::Xorshift128Plus::from([s.0, s.1]);
    let v = src.read::<i16>();
    let next: [u64; 2] = src.into();
    ((next[0], next[1]), v)
}

/// Magnitude that no envelope level reaches.
pub const LEVEL_BOUND: i64 = 144115188075855872;

/// The shape of a generator's oscillator.
#[derive(Clone, Copy, PartialEq, Eq, Structural, Debug)]
pub enum WaveType {
    /// A sine shifted by a phase given in degrees: 360 is a whole turn at every
    /// frequency (the shift is not divided by the frequency).
    Sine(u32),
    Saw,
    /// High while the fraction of the period passed exceeds the duty (in thousandths).
    Square(u32),
    Triangle,
    /// A sine amplified by a drive (in thousandths) and clipped to full scale.
    SineOverdrive(u32),
    Noise,
}

/// Amplitude filter; frequencies and cutoffs are in millihertz. Only `LowPass`
/// has an effect.
#[derive(Clone, Copy, PartialEq, Eq, Structural, Debug)]
pub enum Filter {
    Unfiltered,
    LowPass(u32),
    HighPass(u32),
    BandPass(u32),
    Notch(u32),
}

/// Amplitude envelope. Durations are in milliseconds, the tremolo rate of
/// `Sine(rate, duration)` in millihertz.
#[derive(Clone, Copy, PartialEq, Eq, Structural, Debug)]
pub enum Envelope {
    /// Full level for the given duration.
    Constant(u32),
    /// A linear ramp up over the attack, then down to zero over the decay (over one
    /// second when the decay is not positive). Without an attack the level falls as
    /// `1 - t / decay` from the start, and is zero when the decay is zero too.
    AttackDecay(i32, i32),
    /// A tremolo at the given rate whose depth fades linearly to zero over the
    /// duration.
    Sine(u32, u32),
}

/// Phase shift of `deg` degrees, in angle steps.
pub open spec fn phase_offset(deg: int) -> int {
    (deg % 360) * (TURN as int) / 360
}

/// Sawtooth `2 (x - floor(x + 1/2))` at `x = n / p`, in full-scale units.
pub open spec fn saw_at(n: int, p: int) -> int {
    2 * (ONE as int) * ((n + p / 2) % p) / p - ONE as int
}

/// Value of `wave` after `tick` samples; `noise` is the draw used by `Noise`.
pub open spec fn wave_value(wave: WaveType, freq: int, tick: int, rate: int, noise: int) -> int {
    let p = 1000 * rate;
    let n = (tick * freq) % p;
    let a = angle_at(tick, freq, rate);
    match wave {
        WaveType::Sine(phase) => sine_of_angle((a + phase_offset(phase as int)) % (TURN as int)),
        WaveType::Saw => saw_at(n, p),
        WaveType::Square(duty) => if n * 1000 > (duty as int) * p { ONE as int } else { 0 },
        WaveType::Triangle => {
            let s = saw_at(n, p);
            2 * (if s < 0 { -s } else { s }) - ONE as int
        },
        WaveType::SineOverdrive(drive) => clamp(
            tdiv(sine_of_angle(a) * drive, 1000),
            -(ONE as int),
            ONE as int,
        ),
        WaveType::Noise => clamp(noise, -(ONE as int), ONE as int),
    }
}

/// Gain of `filter` on a tone of `freq`, in thousandths: a low pass leaves a tone at
/// or under its cutoff alone and scales one above it by `1 + cutoff - freq` (in Hz).
pub open spec fn gain_milli(filter: Filter, freq: int) -> int {
    match filter {
        Filter::LowPass(cutoff) => if freq <= cutoff { 1000 } else { 1000 + cutoff - freq },
        _ => 1000,
    }
}

/// Level of `env` after `tick` samples, in full-scale units.
pub open spec fn envelope_level(env: Envelope, tick: int, rate: int) -> int {
    let one = ONE as int;
    let t = tick * 1000;
    match env {
        Envelope::Constant(_) => one,
        Envelope::AttackDecay(attack, decay) => {
            if attack > 0 {
                let a = attack * rate;
                if t < a {
                    one * t / a
                } else if decay <= 0 {
                    one - one * (t - a) / (1000 * rate)
                } else {
                    one - one * (t - a) / (decay * rate)
                }
            } else if decay == 0 {
                0
            } else {
                one - tdiv(one * t, decay * rate)
            }
        },
        Envelope::Sine(freq, duration) => {
            let level = (sine_of_angle(angle_at(tick, freq as int, rate)) + one) / 2;
            let fade = if duration == 0 { 0 } else { one - one * t / (duration * rate) };
            tdiv(level * fade, one)
        },
    }
}

/// Whether `env` still sounds after `tick` samples at `rate`.
pub open spec fn active_at(env: Envelope, tick: int, rate: int) -> bool {
    let t = tick * 1000;
    match env {
        Envelope::Constant(duration) => t <= duration * rate,
        Envelope::AttackDecay(attack, decay) => if attack <= 0 {
            t <= decay * rate
        } else {
            t <= (attack + decay) * rate
        },
        Envelope::Sine(_, duration) => t <= duration * rate,
    }
}

/// One output sample from a wave value, a filter gain (thousandths), an envelope
/// level and a volume (full-scale units): their product, saturated to the `i32` range.
pub open spec fn mix_gain(w: int, g: int, e: int, v: int) -> int {
    let one = ONE as int;
    clamp(tdiv(tdiv(w * e, one) * g * v, 1000 * one), i32::MIN as int, i32::MAX as int)
}

/// A procedural sound source. Frequencies are in millihertz, time in samples.
pub struct Generator {
    pub wave: WaveType,
    pub freq: u32,
    /// Samples elapsed.
    pub tick: u32,
    /// Calls of `get` since `tick` last advanced.
    pub call_phase: u32,
    /// How many calls of `get` make one tick (one per output channel).
    pub calls_per_tick: u32,
    pub env: Envelope,
    /// Volume, in full-scale units.
    pub volume: i32,
    pub filter: Filter,
    /// State of the noise source.
    pub noise: (u64, u64),
}

impl Generator {
    pub open spec fn wf(&self) -> bool {
        &&& self.calls_per_tick >= 1
        &&& self.call_phase < self.calls_per_tick
        &&& (self.noise.0 != 0 || self.noise.1 != 0)
    }

    /// Tick and call phase after one more call of `get`.
    pub open spec fn next_clock(&self) -> (u32, u32) {
        if self.call_phase + 1 == self.calls_per_tick {
            (if self.tick < u32::MAX { (self.tick + 1) as u32 } else { self.tick }, 0u32)
        } else {
            (self.tick, (self.call_phase + 1) as u32)
        }
    }

    /// The noise draw this call uses: one read of the noise source for `Noise`.
    pub open spec fn noise_value(&self) -> int {
        if self.wave is Noise { noise_read(self.noise).1 as int } else { 0 }
    }

    /// The noise state after one call of `get`. An all-zero state, which xorshift
    /// never reaches from another state, is not taken.
    pub open spec fn next_noise(&self) -> (u64, u64) {
        let n = noise_read(self.noise).0;
        if self.wave is Noise && (n.0 != 0 || n.1 != 0) { n } else { self.noise }
    }

    /// `self` after one call of `get`: the clock and the noise source moved.
    pub open spec fn stepped(&self) -> Generator {
        Generator {
            tick: self.next_clock().0,
            call_phase: self.next_clock().1,
            noise: self.next_noise(),
            ..*self
        }
    }

    /// What `get` returns at `rate`: the wave at the current tick, times the filter
    /// gain, the envelope at that same tick, and the volume.
    pub open spec fn sample_value(&self, rate: int) -> int {
        mix_gain(
            wave_value(self.wave, self.freq as int, self.tick as int, rate, self.noise_value()),
            gain_milli(self.filter, self.freq as int),
            envelope_level(self.env, self.tick as int, rate),
            self.volume as int,
        )
    }

    /// One call of `get` at `rate` takes `self` to `next` and returns `v`.
    pub open spec fn draws(&self, rate: int, next: Generator, v: int) -> bool {
        &&& next == self.stepped()
        &&& v == self.sample_value(rate)
    }

    /// A generator at tick zero that advances one tick every second call of `get`
    /// (one call per channel of a stereo frame). The noise source is seeded from
    /// the whole number of hertz in `freq`.
    pub fn new(wave: WaveType, freq: u32, env: Envelope, volume: i32, filter: Filter) -> (r: Self)
        ensures
            r.wf(),
            r.wave == wave,
            r.freq == freq,
            r.env == env,
            r.volume == volume,
            r.filter == filter,
            r.tick == 0,
            r.call_phase == 0,
            r.calls_per_tick == 2,
            r.noise == seed_state((freq / 1000) as u64),
    {
        Generator {
            wave,
            freq,
            tick: 0,
            call_phase: 0,
            calls_per_tick: 2,
            env,
            volume,
            filter,
            noise: seeded_state((freq / 1000) as u64),
        }
    }

    /// The same generator advancing one tick every `n` calls of `get`.
    pub fn with_calls_per_tick(self, n: u32) -> (r: Self)
        requires
            n >= 1,
            self.wf(),
            self.tick == 0 && self.call_phase == 0,
        ensures
            r.wf(),
            r.calls_per_tick == n,
            r.tick == 0 && r.call_phase == 0,
            r.wave == self.wave && r.freq == self.freq && r.env == self.env,
            r.volume == self.volume && r.filter == self.filter,
            r.noise == self.noise,
    {
        Generator { calls_per_tick: n, ..self }
    }

    /// Whether this generator still sounds at `rate`.
    pub open spec fn isActive_spec(&self, rate: int) -> bool {
        active_at(self.env, self.tick as int, rate)
    }

    /// Whether this generator still sounds at `sampleRate`: the current time is
    /// within the envelope's window.
    pub fn isActive(&self, sampleRate: u32) -> (r: bool)
        ensures
            r == self.isActive_spec(sampleRate as int),
    {
        let t: i128 = self.tick as i128 * 1000;
        let rate: i128 = sampleRate as i128;
        proof {
            lemma_mul_within(rate as int, 4294967295, u32::MAX as int, 4294967295);
            lemma_mul_within(rate as int, 4294967296, u32::MAX as int, 4294967296);
        }
        match self.env {
            Envelope::Constant(duration) => {
                proof { lemma_mul_within(duration as int, rate as int, u32::MAX as int, u32::MAX as int); }
                t <= duration as i128 * rate
            },
            Envelope::AttackDecay(attack, decay) => {
                if attack <= 0 {
                    proof { lemma_mul_within(decay as int, rate as int, 2147483648, u32::MAX as int); }
                    t <= decay as i128 * rate
                } else {
                    let w: i128 = attack as i128 + decay as i128;
                    proof { lemma_mul_within(w as int, rate as int, 4294967296, u32::MAX as int); }
                    t <= w * rate
                }
            },
            Envelope::Sine(_, duration) => {
                proof { lemma_mul_within(duration as int, rate as int, u32::MAX as int, u32::MAX as int); }
                t <= duration as i128 * rate
            },
        }
    }

    /// Draws the next sample at `sampleRate`: the wave at the current tick (with a
    /// fresh noise draw for `Noise`), times the filter gain, the envelope at the same
    /// tick, and the volume; then moves the clock.
    pub fn get(&mut self, sampleRate: u32) -> (r: i32)
        requires
            old(self).wf(),
            sampleRate > 0,
        ensures
            final(self).wf(),
            (*old(self)).draws(sampleRate as int, *final(self), r as int),
    {
        let ghost before = *self;
        let mut noise: i16 = 0;
        match self.wave {
            WaveType::Noise => {
                let (next, v) = read_noise(self.noise);
                noise = v;
                if next.0 != 0 || next.1 != 0 {
                    self.noise = next;
                }
            },
            _ => {},
        }
        let w = self.wave_at(noise, sampleRate);
        let g = self.gain();
        let e = self.calcEnvelope(self.tick, sampleRate);
        if self.call_phase + 1 == self.calls_per_tick {
            self.call_phase = 0;
            if self.tick < u32::MAX {
                self.tick = self.tick + 1;
            }
        } else {
            self.call_phase = self.call_phase + 1;
        }
        let v: i128 = self.volume as i128;
        proof {
            lemma_mul_within(w as int, e as int, 32767, LEVEL_BOUND as int);
            lemma_tdiv_within(w as int * e as int, 32767, LEVEL_BOUND as int);
        }
        let we = div_toward_zero((w as i128) * (e as i128), 32767);
        proof {
            lemma_mul_within(we as int, g as int, LEVEL_BOUND as int, 4294967295);
            lemma_mul_within(we as int * g as int, v as int, LEVEL_BOUND as int * 4294967295, 2147483648);
        }
        let prod: i128 = we * (g as i128) * v;
        let q = div_toward_zero(prod, 1000 * 32767);
        let r = clamp_i128(q, i32::MIN as i128, i32::MAX as i128) as i32;
        assert(*self == before.stepped());
        r
    }

    /// The sawtooth at `n / p` of a turn.
    fn saw(n: u64, p: u64) -> (r: i64)
        requires
            p > 0,
            p % 2 == 0,
            n < p,
            p <= 1000 * u32::MAX,
        ensures
            r == saw_at(n as int, p as int),
            -ONE <= r < ONE,
    {
        let m: u64 = (n + p / 2) % p;
        assert((2 * 32767) * m < 2 * 32767 * p <= 2 * 32767 * 4294967295000) by (nonlinear_arith)
            requires m < p, p <= 4294967295000;
        let k: u64 = (2 * 32767) * m / p;
        assert(k < 2 * 32767) by (nonlinear_arith)
            requires k as int == (2 * 32767 * m) as int / (p as int), m < p, p > 0;
        k as i64 - ONE
    }

    /// The wave value at the current tick, with `noise` as the noise draw.
    pub fn wave_at(&self, noise: i16, rate: u32) -> (r: i64)
        requires
            rate > 0,
        ensures
            r == wave_value(self.wave, self.freq as int, self.tick as int, rate as int, noise as int),
            -ONE <= r <= ONE,
    {
        let p: u64 = 1000 * (rate as u64);
        assert((self.tick as u64) * (self.freq as u64) <= u32::MAX * u32::MAX) by (nonlinear_arith);
        let n: u64 = ((self.tick as u64) * (self.freq as u64)) % p;
        match self.wave {
            WaveType::Sine(phase) => {
                let a = angle(self.tick, self.freq, rate);
                let off: u64 = ((phase % 360) as u64) * TURN / 360;
                sine((a + off) % TURN)
            },
            WaveType::Saw => Self::saw(n, p),
            WaveType::Square(duty) => {
                proof {
                    lemma_mul_within(duty as int, p as int, u32::MAX as int, 1000 * u32::MAX);
                }
                if (n as u128) * 1000 > (duty as u128) * (p as u128) {
                    ONE
                } else {
                    0
                }
            },
            WaveType::Triangle => {
                let s = Self::saw(n, p);
                2 * (if s < 0 { -s } else { s }) - ONE
            },
            WaveType::SineOverdrive(drive) => {
                let a = angle(self.tick, self.freq, rate);
                let x = sine(a) as i128;
                assert(-32767 * 4294967295 <= x * (drive as i128) <= 32767 * 4294967295)
                    by (nonlinear_arith)
                    requires -32767 <= x <= 32767, 0 <= drive <= 4294967295;
                let d = div_toward_zero(x * (drive as i128), 1000);
                clamp_i128(d, -(ONE as i128), ONE as i128) as i64
            },
            WaveType::Noise => if noise < -32767 { -ONE } else { noise as i64 },
        }
    }

    /// Filter gain on this generator's tone, in thousandths.
    pub fn gain(&self) -> (r: i64)
        ensures
            r == gain_milli(self.filter, self.freq as int),
            -4294967295 <= r <= 1000,
    {
        match self.filter {
            Filter::LowPass(cutoff) => {
                if self.freq <= cutoff {
                    1000
                } else {
                    1000 + cutoff as i64 - self.freq as i64
                }
            },
            _ => 1000,
        }
    }

    /// Envelope level after `tick` samples at `sampleRate`, in full-scale units.
    pub fn calcEnvelope(&self, tick: u32, sampleRate: u32) -> (r: i64)
        requires
            sampleRate > 0,
        ensures
            r == envelope_level(self.env, tick as int, sampleRate as int),
            -LEVEL_BOUND <= r <= LEVEL_BOUND,
    {
        let t: i128 = tick as i128 * 1000;
        let rate: i128 = sampleRate as i128;
        let one: i128 = 32767;
        let raw: i128 = match self.env {
            Envelope::Constant(_) => one,
            Envelope::AttackDecay(attack, decay) => {
                if attack > 0 {
                    proof {
                        lemma_mul_within(attack as int, rate as int, i32::MAX as int, u32::MAX as int);
                    }
                    let a: i128 = attack as i128 * rate;
                    assert(0 < a <= 2147483647 * 4294967295) by (nonlinear_arith)
                        requires a == attack * rate, 0 < attack <= 2147483647, 0 < rate <= 4294967295;
                    if t < a {
                        one * t / a
                    } else if decay <= 0 {
                        one - one * (t - a) / (1000 * rate)
                    } else {
                        proof {
                            lemma_mul_within(decay as int, rate as int, i32::MAX as int, u32::MAX as int);
                        }
                        let d: i128 = decay as i128 * rate;
                        assert(0 < d <= 2147483647 * 4294967295) by (nonlinear_arith)
                            requires d == decay * rate, 0 < decay <= 2147483647, 0 < rate <= 4294967295;
                        one - one * (t - a) / d
                    }
                } else if decay == 0 {
                    0
                } else {
                    proof {
                        lemma_mul_within(decay as int, rate as int, 2147483648, u32::MAX as int);
                    }
                    let d: i128 = decay as i128 * rate;
                    assert(-2147483648 * 4294967295 <= d <= 2147483647 * 4294967295 && d != 0)
                        by (nonlinear_arith)
                        requires d == decay * rate, -2147483648 <= decay <= 2147483647, decay != 0,
                            0 < rate <= 4294967295;
                    one - div_toward_zero(one * t, d)
                }
            },
            Envelope::Sine(freq, duration) => {
                let level: i128 = (sine(angle(tick, freq, sampleRate)) as i128 + one) / 2;
                let fade: i128 = if duration == 0 {
                    0
                } else {
                    proof {
                        lemma_mul_within(duration as int, rate as int, u32::MAX as int, u32::MAX as int);
                    }
                    let d: i128 = duration as i128 * rate;
                    assert(0 < d <= 4294967295 * 4294967295) by (nonlinear_arith)
                        requires d == duration * rate, 0 < duration <= 4294967295, 0 < rate <= 4294967295;
                    proof {
                        lemma_div_within(32767 * t as int, d as int);
                    }
                    one - one * t / d
                };
                proof {
                    lemma_mul_within(level as int, fade as int, 32767, 32767 * 4294967295000int);
                }
                div_toward_zero(level * fade, one)
            },
        };
        raw as i64
    }
}

/// Liveness never comes back: an envelope active at a later tick is active at
/// every earlier tick, so as time runs forward it goes from true to false at most once.
pub proof fn lemma_active_only_ends(env: Envelope, earlier: int, later: int, rate: int)
    requires
        0 <= earlier <= later,
        rate > 0,
    ensures
        active_at(env, later, rate) ==> active_at(env, earlier, rate),
{
}

/// A call of `get` never revives a generator: if it is active after the call,
/// it was active before.
pub proof fn lemma_draw_never_revives(g: Generator, rate: int, next: Generator, v: int)
    requires
        g.draws(rate, next, v),
        rate > 0,
    ensures
        next.tick >= g.tick,
        next.isActive_spec(rate) ==> g.isActive_spec(rate),
{
    lemma_active_only_ends(g.env, g.tick as int, next.tick as int, rate);
}

/// Every wave but noise repeats after `k` samples whenever `k` samples hold a
/// whole number of periods (`k * freq` a multiple of `1000 * rate`): with
/// `freq` in millihertz, `k` is then a multiple of `rate / freq` in hertz.
pub proof fn lemma_wave_periodic(wave: WaveType, freq: int, tick: int, k: int, rate: int, noise: int)
    requires
        rate > 0,
        freq >= 0,
        tick >= 0,
        k >= 0,
        (k * freq) % (1000 * rate) == 0,
    ensures
        wave_value(wave, freq, tick + k, rate, noise) == wave_value(wave, freq, tick, rate, noise),
{
    let p = 1000 * rate;
    lemma_mul_is_distributive_add_other_way(freq, tick, k);
    lemma_add_mod_noop(tick * freq, k * freq, p);
    lemma_mod_twice(tick * freq, p);
    assert(((tick + k) * freq) % p == (tick * freq) % p);
}

/// The sawtooth stays within `[-ONE, ONE)`.
pub proof fn lemma_saw_range(freq: int, tick: int, rate: int, noise: int)
    requires
        rate > 0,
    ensures
        -(ONE as int) <= wave_value(WaveType::Saw, freq, tick, rate, noise) < ONE as int,
{
    let p = 1000 * rate;
    let m = ((tick * freq) % p + p / 2) % p;
    assert(0 <= m < p);
    assert(0 <= 2 * 32767 * m / p < 2 * 32767) by (nonlinear_arith)
        requires 0 <= m < p, p > 0;
}

/// How many of the `n` samples of `wave` from tick `m` on are at full scale.
pub open spec fn high_count(wave: WaveType, freq: int, rate: int, m: int, n: nat) -> nat
    decreases n,
{
    if n == 0 {
        0
    } else {
        high_count(wave, freq, rate, m, (n - 1) as nat) + if wave_value(wave, freq, m + n - 1, rate, 0)
            == ONE as int {
            1nat
        } else {
            0nat
        }
    }
}

proof fn lemma_high_count_front(wave: WaveType, freq: int, rate: int, m: int, n: nat)
    ensures
        high_count(wave, freq, rate, m, n + 1) == high_count(wave, freq, rate, m + 1, n) + (
        if wave_value(wave, freq, m, rate, 0) == ONE as int { 1nat } else { 0nat }),
    decreases n,
{
    let one = ONE as int;
    if n > 0 {
        lemma_high_count_front(wave, freq, rate, m, (n - 1) as nat);
        assert(high_count(wave, freq, rate, m, n + 1) == high_count(wave, freq, rate, m, n) + (
            if wave_value(wave, freq, m + n, rate, 0) == one { 1nat } else { 0nat }));
        assert(high_count(wave, freq, rate, m + 1, n) == high_count(wave, freq, rate, m + 1, (n - 1) as nat) + (
            if wave_value(wave, freq, m + n, rate, 0) == one { 1nat } else { 0nat }));
    } else {
        assert(high_count(wave, freq, rate, m, 1) == high_count(wave, freq, rate, m, 0) + (
            if wave_value(wave, freq, m, rate, 0) == one { 1nat } else { 0nat }));
    }
}

/// Over a whole number of periods (`k * freq` a multiple of `1000 * rate`), the
/// count of high samples is the same from every starting tick.
pub proof fn lemma_high_count_any_start(wave: WaveType, freq: int, rate: int, m: nat, k: nat)
    requires
        rate > 0,
        freq >= 0,
        k > 0,
        (k * freq) % (1000 * rate) == 0,
    ensures
        high_count(wave, freq, rate, m as int, k) == high_count(wave, freq, rate, 0, k),
    decreases m,
{
    if m > 0 {
        let p = (m - 1) as int;
        lemma_high_count_any_start(wave, freq, rate, (m - 1) as nat, k);
        lemma_high_count_front(wave, freq, rate, p, (k - 1) as nat);
        lemma_wave_periodic(wave, freq, p, k as int, rate, 0);
        assert(p + 1 + k - 1 == p + k);
    }
}

proof fn lemma_half_square_count(freq: int, rate: int, k: int, n: nat)
    requires
        rate > 0,
        freq > 0,
        k > 0,
        k * freq == 1000 * rate,
        n <= k,
    ensures
        high_count(WaveType::Square(500), freq, rate, 0, n) == (if n <= k / 2 + 1 { 0 } else { n - k / 2 - 1 }),
    decreases n,
{
    if n > 0 {
        lemma_half_square_count(freq, rate, k, (n - 1) as nat);
        let t = n - 1;
        let p = 1000 * rate;
        assert(0 <= t * freq < p) by (nonlinear_arith)
            requires 0 <= t < k, freq > 0, k * freq == p;
        lemma_small_mod((t * freq) as nat, p as nat);
        assert((t * freq) * 1000 > 500 * p <==> 2 * t > k) by (nonlinear_arith)
            requires freq > 0, k * freq == p;
    }
}

/// A half-duty square wave is high for half of each period, to within one sample:
/// over any `k` consecutive samples making one period (`k * freq == 1000 * rate`,
/// `freq` in millihertz) it is high on `k - k / 2 - 1` of them, that is `ceil(k / 2) - 1`.
pub proof fn lemma_square_half_duty(freq: int, rate: int, k: int, m: nat)
    requires
        rate > 0,
        freq > 0,
        k > 0,
        k * freq == 1000 * rate,
    ensures
        high_count(WaveType::Square(500), freq, rate, m as int, k as nat) == k - k / 2 - 1,
{
    lemma_half_square_count(freq, rate, k, k as nat);
    assert((k * freq) % (1000 * rate) == 0) by (nonlinear_arith)
        requires k * freq == 1000 * rate, rate > 0;
    lemma_high_count_any_start(WaveType::Square(500), freq, rate, m, k as nat);
}

/// Noise is repeatable, and only a low pass filters: two generators that differ at
/// most in a filter other than `LowPass` draw the same value and move to the same
/// state (filter aside). Generators built alike thus produce identical sequences.
pub proof fn lemma_same_draws(g1: Generator, g2: Generator, rate: int)
    requires
        !(g1.filter is LowPass),
        !(g2.filter is LowPass),
        g2 == (Generator { filter: g2.filter, ..g1 }),
    ensures
        g1.sample_value(rate) == g2.sample_value(rate),
        g2.stepped() == (Generator { filter: g2.filter, ..g1.stepped() }),
{
}

} // verus!
