use vstd::prelude::*;

verus! {

/// The most channels a decoded stream may have.
pub const MAX_CHANNELS: u8 = 2;

/// Pull access to a decoded PCM stream, one interleaved sample at a time.
///
/// Decoded packets are appended as they arrive; `read` only moves forward. Once the
/// stream has been marked as ended and every sample has been read, the source is
/// no longer active, so a mixer drops it instead of waiting for data that will
/// never come.
pub struct AudioFile {
    /// Every sample decoded so far, packets laid end to end.
    pub samples: Vec<i16>,
    /// How many of `samples` have been handed out.
    pub read: usize,
    /// Whether the stream has no more packets.
    pub ended: bool,
    pub channels: u8,
}

impl AudioFile {
    pub open spec fn wf(&self) -> bool {
        &&& self.read <= self.samples.len()
        &&& self.channels <= MAX_CHANNELS
    }

    /// A stream of `channels` interleaved channels, or none when there are more than two.
    pub fn new(channels: u8) -> (r: Option<AudioFile>)
        ensures
            r is None <==> channels > MAX_CHANNELS,
            r matches Some(f) ==> f.wf() && f.samples@.len() == 0 && f.read == 0 && !f.ended
                && f.channels == channels,
    {
        if channels > MAX_CHANNELS {
            None
        } else {
            Some(AudioFile { samples: Vec::new(), read: 0, ended: false, channels })
        }
    }

    /// Appends a decoded packet; an empty packet changes nothing.
    pub fn push_packet(&mut self, packet: &Vec<i16>)
        requires
            old(self).wf(),
            old(self).samples.len() + packet.len() <= usize::MAX,
        ensures
            final(self).wf(),
            final(self).samples@ == old(self).samples@ + packet@,
            final(self).read == old(self).read,
            final(self).ended == old(self).ended,
            final(self).channels == old(self).channels,
    {
        let ghost start = self.samples@;
        let ghost before = *self;
        let mut i: usize = 0;
        while i < packet.len()
            invariant
                i <= packet.len(),
                self.samples@ == start + packet@.take(i as int),
                start.len() + packet.len() <= usize::MAX,
                self.read == before.read,
                self.ended == before.ended,
                self.channels == before.channels,
                before.wf(),
                start.len() == before.samples.len(),
            decreases packet.len() - i,
        {
            self.samples.push(packet[i]);
            i = i + 1;
            assert(packet@.take(i as int) == packet@.take(i - 1).push(packet@[i - 1]));
        }
        assert(packet@.take(packet.len() as int) == packet@);
    }

    /// Marks the stream as having no more packets.
    pub fn finish(&mut self)
        ensures
            final(self).ended,
            final(self).samples == old(self).samples,
            final(self).read == old(self).read,
            final(self).channels == old(self).channels,
    {
        self.ended = true;
    }

    /// The sample that `get` hands out next, if one is buffered.
    pub open spec fn next_spec(&self) -> Option<i16> {
        if self.read < self.samples.len() {
            Some(self.samples@[self.read as int])
        } else {
            None
        }
    }

    /// One call of `get` may take `self` to `next` and hand out `v`.
    pub open spec fn draws(&self, next: AudioFile, v: Option<i16>) -> bool {
        &&& next.samples == self.samples
        &&& next.ended == self.ended
        &&& next.channels == self.channels
        &&& if self.read < self.samples.len() {
            next.read == self.read + 1 && v == Some(self.samples@[self.read as int])
        } else {
            next.read == self.read && v is None
        }
    }

    /// The next decoded sample, or `None` when none is buffered yet.
    pub fn get(&mut self) -> (r: Option<i16>)
        requires
            old(self).wf(),
        ensures
            final(self).wf(),
            (*old(self)).draws(*final(self), r),
            r == old(self).next_spec(),
    {
        if self.read < self.samples.len() {
            let s = self.samples[self.read];
            self.read = self.read + 1;
            Some(s)
        } else {
            None
        }
    }

    pub open spec fn isActive_spec(&self) -> bool {
        !self.ended || self.read < self.samples.len()
    }

    /// Active until the stream has ended and every sample has been read.
    pub fn isActive(&self) -> (r: bool)
        ensures
            r == self.isActive_spec(),
    {
        !self.ended || self.read < self.samples.len()
    }
}

/// Decoded samples come out in the order they went in: once everything pushed
/// earlier has been read, the `k`-th read after pushing `packet` hands out
/// `packet[k]`.
pub proof fn lemma_reads_follow_pushes(before: AudioFile, packet: Seq<i16>, f: AudioFile, k: int)
    requires
        before.wf(),
        before.read == before.samples.len(),
        f.samples@ == before.samples@ + packet,
        f.read == before.read + k,
        0 <= k < packet.len(),
    ensures
        f.next_spec() == Some(packet[k]),
{
}

} // verus!
