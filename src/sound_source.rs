use vstd::prelude::*;
use crate::audio_file::AudioFile;
use crate::fixed::{ONE, clamp};
use crate::generator::Generator;

verus! {

/// Anything the mixer can draw samples from.
pub enum SoundSource {
    ProcGen(Generator),
    AudioFile(AudioFile),
}

impl SoundSource {
    pub open spec fn wf(&self) -> bool {
        match self {
            SoundSource::ProcGen(g) => g.wf(),
            SoundSource::AudioFile(f) => f.wf(),
        }
    }

    pub open spec fn isActive_spec(&self, rate: int) -> bool {
        match self {
            SoundSource::ProcGen(g) => g.isActive_spec(rate),
            SoundSource::AudioFile(f) => f.isActive_spec(),
        }
    }

    /// One call of `get` at `rate` takes `self` to `next` and returns `v`. A decoded
    /// sample is returned in full-scale units, with -32768 raised to `-ONE` so that it
    /// stays within [-1, 1]; a decoded stream with nothing buffered gives silence.
    pub open spec fn draws(&self, rate: int, next: SoundSource, v: int) -> bool {
        match (self, next) {
            (SoundSource::ProcGen(g), SoundSource::ProcGen(n)) => g.draws(rate, n, v),
            (SoundSource::AudioFile(f), SoundSource::AudioFile(n)) => {
                &&& f.draws(n, f.next_spec())
                &&& v == (if let Some(x) = f.next_spec() { clamp(x as int, -(ONE as int), ONE as int) } else { 0 })
            },
            _ => false,
        }
    }

    /// The next sample of this source, in full-scale units; a decoded stream
    /// ignores `sampleRate`.
    pub fn get(&mut self, sampleRate: u32) -> (r: i32)
        requires
            old(self).wf(),
            sampleRate > 0,
        ensures
            final(self).wf(),
            (*old(self)).draws(sampleRate as int, *final(self), r as int),
    {
        match self {
            SoundSource::ProcGen(g) => g.get(sampleRate),
            SoundSource::AudioFile(f) => {
                let s = f.get();
                match s {
                    Some(x) => if x < -32767 { -32767 } else { x as i32 },
                    None => 0,
                }
            },
        }
    }

    pub fn isActive(&self, sampleRate: u32) -> (r: bool)
        ensures
            r == self.isActive_spec(sampleRate as int),
    {
        match self {
            SoundSource::ProcGen(g) => g.isActive(sampleRate),
            SoundSource::AudioFile(f) => f.isActive(),
        }
    }
}

} // verus!
