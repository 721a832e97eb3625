use vstd::prelude::*;
use crate::fixed::ONE;
use crate::generator::{Envelope, Filter, Generator, WaveType, seed_state};
use crate::sound_source::SoundSource;

verus! {

/// The most sources the registry holds at once.
pub const MAX_VOICES: usize = 4096;

/// Frequencies of the notes C to B of octave zero, in millihertz.
pub const NOTES: [u32; 12] = [
    16350, 17320, 18350, 19450, 20600, 21830, 23120, 24500, 25960, 27500, 29140, 30870,
];

/// The sources among `s` that are still active at `rate`, in their order.
pub open spec fn live(s: Seq<SoundSource>, rate: int) -> Seq<SoundSource>
    decreases s.len(),
{
    if s.len() == 0 {
        Seq::<SoundSource>::empty()
    } else {
        let rest = live(s.drop_last(), rate);
        if s.last().isActive_spec(rate) {
            rest.push(s.last())
        } else {
            rest
        }
    }
}

/// Sum of a sequence of sample values.
pub open spec fn total(s: Seq<int>) -> int
    decreases s.len(),
{
    if s.len() == 0 {
        0
    } else {
        total(s.drop_last()) + s.last()
    }
}

/// `2` to the power `n`.
pub open spec fn two_pow(n: nat) -> nat
    decreases n,
{
    if n == 0 { 1 } else { 2 * two_pow((n - 1) as nat) }
}

proof fn lemma_two_pow_grows(a: nat, b: nat)
    requires
        a <= b,
    ensures
        two_pow(a) <= two_pow(b),
    decreases b,
{
    if a < b {
        lemma_two_pow_grows(a, (b - 1) as nat);
    }
}

/// Frequency of `note` (0 for C up to 11 for B) in `octave`, in millihertz.
pub open spec fn note_freq(note: int, octave: nat) -> int {
    NOTES@[note] * two_pow(octave)
}

/// How many harmonics of a note at `base` a note-on adds: up to `harmonics`, as
/// long as each frequency fits a `u32` and the registry has room (`room`); none
/// when the note itself does not fit.
pub open spec fn harmonic_count(base: int, harmonics: int, room: int) -> int {
    if base > u32::MAX {
        0
    } else {
        let fit = (u32::MAX as int) / base;
        let a = if harmonics < fit { harmonics } else { fit };
        if a < room { a } else { room }
    }
}

/// `s` is what `Generator::new(wave, freq, env, volume, Filter::Unfiltered)` builds.
pub open spec fn is_voice(s: SoundSource, wave: WaveType, freq: int, env: Envelope, volume: int) -> bool {
    match s {
        SoundSource::ProcGen(g) => {
            &&& g.wf()
            &&& g.wave == wave
            &&& g.freq == freq
            &&& g.env == env
            &&& g.volume == volume
            &&& g.filter == Filter::Unfiltered
            &&& g.tick == 0
            &&& g.call_phase == 0
            &&& g.calls_per_tick == 2
            &&& g.noise == seed_state((freq / 1000) as u64)
        },
        _ => false,
    }
}

/// Once no source is active, a pass empties the registry and emits exact silence:
/// nothing survives it and the sum of no draws is zero.
pub proof fn lemma_silent_pass(s: Seq<SoundSource>, rate: int, vs: Seq<int>)
    requires
        forall|i: int| 0 <= i < s.len() ==> !(#[trigger] s[i]).isActive_spec(rate),
        vs.len() == live(s, rate).len(),
    ensures
        live(s, rate).len() == 0,
        total(vs) == 0,
    decreases s.len(),
{
    if s.len() > 0 {
        let t = s.drop_last();
        assert(!s[s.len() - 1].isActive_spec(rate));
        lemma_silent_pass(t, rate, vs);
    }
}

/// When every source is active, a pass keeps all of them in order, so the value
/// `mix` returns is the plain sum of one draw from each source of the registry.
pub proof fn lemma_all_live(s: Seq<SoundSource>, rate: int)
    requires
        forall|i: int| 0 <= i < s.len() ==> (#[trigger] s[i]).isActive_spec(rate),
    ensures
        live(s, rate) == s,
    decreases s.len(),
{
    if s.len() > 0 {
        let t = s.drop_last();
        assert(s[s.len() - 1].isActive_spec(rate));
        assert forall|i: int| 0 <= i < t.len() implies (#[trigger] t[i]).isActive_spec(rate) by {
            assert(t[i] == s[i]);
        }
        lemma_all_live(t, rate);
        assert(t.push(s.last()) == s);
    }
}

/// Owner of the live sound sources: sums them once per output sample and drops
/// those whose time is over.
pub struct Mixer {
    pub sources: Vec<SoundSource>,
}

impl Mixer {
    pub open spec fn wf(&self) -> bool {
        &&& self.sources.len() <= MAX_VOICES
        &&& forall|i: int| 0 <= i < self.sources.len() ==> (#[trigger] self.sources@[i]).wf()
    }

    /// An empty registry.
    pub fn new() -> (r: Mixer)
        ensures
            r.wf(),
            r.sources@.len() == 0,
    {
        Mixer { sources: Vec::new() }
    }

    /// How many sources the registry holds.
    pub fn len(&self) -> (r: usize)
        ensures
            r == self.sources.len(),
    {
        self.sources.len()
    }

    /// Appends `s` unless the registry is full; says whether it did.
    pub fn add_source(&mut self, s: SoundSource) -> (r: bool)
        requires
            old(self).wf(),
            s.wf(),
        ensures
            final(self).wf(),
            r == (old(self).sources.len() < MAX_VOICES),
            r ==> final(self).sources@ == old(self).sources@.push(s),
            !r ==> final(self).sources@ == old(self).sources@,
    {
        if self.sources.len() < MAX_VOICES {
            self.sources.push(s);
            assert(forall|i: int| 0 <= i < self.sources.len() ==> (#[trigger] self.sources@[i]).wf()) by {
                assert(forall|i: int| 0 <= i < self.sources.len() - 1 ==> self.sources@[i] == old(self).sources@[i]);
            }
            true
        } else {
            false
        }
    }

    /// Note-on: adds one generator per harmonic `i` in `1..=harmonics` of `note`
    /// (0 for C up to 11 for B) in `octave`, at `i` times the note's frequency and
    /// volume `1/i`. Stops at the first harmonic whose frequency does not fit a `u32`
    /// (in millihertz) or when the registry is full. Returns how many were added.
    pub fn add_note(&mut self, octave: u32, note: usize, waveform: WaveType, harmonics: u32, env: Envelope) -> (r: usize)
        requires
            old(self).wf(),
            note < 12,
        ensures
            final(self).wf(),
            r == harmonic_count(note_freq(note as int, octave as nat), harmonics as int,
                MAX_VOICES - old(self).sources.len()),
            final(self).sources@.len() == old(self).sources@.len() + r,
            final(self).sources@.take(old(self).sources@.len() as int) == old(self).sources@,
            forall|k: int| 0 <= k < r ==> is_voice(
                #[trigger] final(self).sources@[old(self).sources@.len() + k],
                waveform,
                note_freq(note as int, octave as nat) * (k + 1),
                env,
                (ONE as int) / (k + 1),
            ),
    {
        let ghost start = self.sources@;
        let mut base: u64 = NOTES[note] as u64;
        let mut k: u32 = 0;
        assert(two_pow(0) == 1);
        assert(base == NOTES@[note as int]);
        while k < octave && base <= u32::MAX as u64
            invariant
                k <= octave,
                base == NOTES@[note as int] * two_pow(k as nat),
                note < 12,
            decreases octave - k,
        {
            base = base * 2;
            k = k + 1;
        }
        proof {
            lemma_two_pow_grows(0, k as nat);
            lemma_two_pow_grows(k as nat, octave as nat);
            assert(NOTES@[note as int] >= 1);
            assert(NOTES@[note as int] * two_pow(k as nat) <= NOTES@[note as int] * two_pow(octave as nat))
                by (nonlinear_arith)
                requires two_pow(k as nat) <= two_pow(octave as nat), NOTES@[note as int] >= 1;
        }
        if base > u32::MAX as u64 {
            return 0;
        }
        assert(base >= 1) by (nonlinear_arith)
            requires base == NOTES@[note as int] * two_pow(octave as nat), NOTES@[note as int] >= 1,
                two_pow(octave as nat) >= 1;
        assert(k == octave);
        let mut i: u64 = 1;
        while i <= harmonics as u64 && self.sources.len() < MAX_VOICES && base * i <= u32::MAX as u64
            invariant
                1 <= i <= harmonics as u64 + 1,
                1 <= base <= u32::MAX,
                base == note_freq(note as int, octave as nat),
                (i - 1) * base <= u32::MAX,
                base * i <= u32::MAX * (u32::MAX + 1),
                start.len() <= MAX_VOICES,
                self.sources@.len() == start.len() + (i - 1),
                self.sources@.len() <= MAX_VOICES,
                self.sources@.take(start.len() as int) == start,
                forall|j: int| 0 <= j < start.len() ==> (#[trigger] start[j]).wf(),
                forall|j: int| 0 <= j < i - 1 ==> is_voice(
                    #[trigger] self.sources@[start.len() + j], waveform, base * (j + 1), env, (ONE as int) / (j + 1)),
            decreases harmonics as u64 + 1 - i,
        {

            let g = Generator::new(waveform, (base * i) as u32, env, (ONE / (i as i64)) as i32, Filter::Unfiltered);
            let ghost prev = self.sources@;
            self.sources.push(SoundSource::ProcGen(g));
            proof {
                assert(self.sources@.take(start.len() as int) == prev.take(start.len() as int));
                assert forall|j: int| 0 <= j < i implies is_voice(
                    #[trigger] self.sources@[start.len() + j], waveform, base * (j + 1), env, (ONE as int) / (j + 1)) by {
                    if j < i - 1 {
                        assert(self.sources@[start.len() + j] == prev[start.len() + j]);
                    }
                }
            }
            assert(((i + 1) - 1) * base <= u32::MAX) by (nonlinear_arith)
                requires base * i <= u32::MAX;
            assert(base * (i + 1) <= u32::MAX * (u32::MAX + 1)) by (nonlinear_arith)
                requires base <= u32::MAX, i + 1 <= u32::MAX + 1;
            i = i + 1;
        }
        proof {
            let n = i - 1;
            let fit = (u32::MAX as int) / (base as int);
            assert(n <= fit) by (nonlinear_arith)
                requires n * base <= u32::MAX, base >= 1, fit == (u32::MAX as int) / (base as int);
            if i <= harmonics as u64 && self.sources.len() < MAX_VOICES {
                assert(n >= fit) by (nonlinear_arith)
                    requires base * (n + 1) > u32::MAX, base >= 1, fit == (u32::MAX as int) / (base as int);
            }
            assert forall|j: int| 0 <= j < self.sources@.len() implies (#[trigger] self.sources@[j]).wf() by {
                if j < start.len() {
                    assert(self.sources@[j] == self.sources@.take(start.len() as int)[j]);
                } else {
                    assert(is_voice(self.sources@[start.len() + (j - start.len())], waveform,
                        base * ((j - start.len()) + 1), env, (ONE as int) / ((j - start.len()) + 1)));
                }
            }
        }
        (i - 1) as usize
    }

    /// One mix pass: every source that is no longer active at `sampleRate` is
    /// removed, every other one is drawn once, and the sum of the draws is returned,
    /// with no scaling or clipping. Survivors keep their order.
    pub fn mix(&mut self, sampleRate: u32) -> (r: i64)
        requires
            old(self).wf(),
            sampleRate > 0,
        ensures
            final(self).wf(),
            final(self).sources@.len() == live(old(self).sources@, sampleRate as int).len(),
            exists|vs: Seq<int>| {
                &&& vs.len() == final(self).sources@.len()
                &&& r == total(vs)
                &&& forall|k: int| 0 <= k < vs.len() ==> (#[trigger] live(old(self).sources@, sampleRate as int)[k]).draws(
                    sampleRate as int, final(self).sources@[k], vs[k])
            },
    {
        let ghost rate = sampleRate as int;
        let ghost start = self.sources@;
        let ghost mut j: int = 0;
        let ghost mut vs: Seq<int> = Seq::empty();
        let mut acc: i64 = 0;
        let mut i: usize = 0;
        while i < self.sources.len()
            invariant
                0 <= j <= start.len(),
                i <= j,
                sampleRate > 0,
                rate == sampleRate as int,
                i <= self.sources.len(),
                self.sources.len() == i + (start.len() - j),
                start.len() <= MAX_VOICES,
                forall|k: int| 0 <= k < self.sources.len() - i ==> #[trigger] self.sources@[i + k] == start[j + k],
                forall|k: int| 0 <= k < start.len() ==> (#[trigger] start[k]).wf(),
                forall|k: int| 0 <= k < i ==> (#[trigger] self.sources@[k]).wf(),
                live(start.take(j), rate).len() == i,
                vs.len() == i,
                acc == total(vs),
                -(i as int) * 2147483648 <= acc <= (i as int) * 2147483647,
                forall|k: int| 0 <= k < i ==> (#[trigger] live(start.take(j), rate)[k]).draws(
                    rate, self.sources@[k], vs[k]),
            decreases self.sources.len() - i,
        {
            assert(self.sources@[i + 0] == start[j + 0]);
            assert(self.sources@[i as int] == start[j]);
            assert(start.take(j + 1).drop_last() == start.take(j));
            assert(start.take(j + 1).last() == start[j]);
            if !self.sources[i].isActive(sampleRate) {
                let ghost prev = self.sources@;
                self.sources.remove(i);
                proof {
                    assert forall|k: int| 0 <= k < self.sources.len() - i implies #[trigger] self.sources@[i + k] == start[j + 1 + k] by {
                        assert(self.sources@[i + k] == prev[i + k + 1]);
                        assert(prev[i + (k + 1)] == start[j + (k + 1)]);
                    }
                    assert forall|k: int| 0 <= k < i implies (#[trigger] self.sources@[k]).wf() by {
                        assert(self.sources@[k] == prev[k]);
                    }
                    assert forall|k: int| 0 <= k < i implies (#[trigger] live(start.take(j + 1), rate)[k]).draws(
                        rate, self.sources@[k], vs[k]) by {
                        assert(self.sources@[k] == prev[k]);
                    }
                    j = j + 1;
                }
            } else {
                let ghost prev = self.sources@;
                let v = self.sources[i].get(sampleRate);
                proof {
                    assert(live(start.take(j + 1), rate) == live(start.take(j), rate).push(start[j]));
                    assert(vs.push(v as int).drop_last() == vs);
                    assert forall|k: int| 0 <= k < self.sources.len() - (i + 1) implies #[trigger] self.sources@[(i + 1) + k] == start[(j + 1) + k] by {
                        assert(prev[i + (k + 1)] == start[j + (k + 1)]);
                    }
                    assert forall|k: int| 0 <= k < i + 1 implies (#[trigger] self.sources@[k]).wf() by {
                        if k < i {
                            assert(self.sources@[k] == prev[k]);
                        }
                    }
                    assert forall|k: int| 0 <= k < i + 1 implies (#[trigger] live(start.take(j + 1), rate)[k]).draws(
                        rate, self.sources@[k], vs.push(v as int)[k]) by {
                        if k < i {
                            assert(self.sources@[k] == prev[k]);
                        }
                    }
                    vs = vs.push(v as int);
                    j = j + 1;
                }
                acc = acc + v as i64;
                i = i + 1;
            }
        }
        assert(start.take(j) == start);
        acc
    }
}

} // verus!
