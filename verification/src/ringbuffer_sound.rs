//! The real-time ring buffer that bridges the bursty producer to the
//! fixed-cadence sample consumer.
//!
//! The buffer holds about one second of audio.  On overflow the oldest
//! unread sample is silently discarded, so a stalled consumer loses stale
//! audio instead of blocking the producer; on underflow silence is
//! returned, so a starved consumer keeps its cadence instead of failing.

use crate::station_data::{CHANNEL_COUNT, SAMPLE_RATE};
use vstd::prelude::*;

verus! {

/// How many samples the buffer holds: one second of audio.
pub const BUFFER_SIZE: usize = (SAMPLE_RATE * CHANNEL_COUNT) as usize;

/// What one `put` does to the queued samples: appends, discarding the
/// oldest sample first when the buffer is already full.
pub open spec fn spec_put(q: Seq<i16>, sample: i16) -> Seq<i16> {
    if q.len() < BUFFER_SIZE {
        q.push(sample)
    } else {
        q.skip(1).push(sample)
    }
}

/// What putting a whole sequence of samples, oldest first, does to the
/// queued samples.
pub open spec fn spec_put_all(q: Seq<i16>, samples: Seq<i16>) -> Seq<i16>
    decreases samples.len(),
{
    if samples.len() == 0 {
        q
    } else {
        spec_put_all(spec_put(q, samples[0]), samples.skip(1))
    }
}

/// The samples carried little-endian by a byte string, two bytes each.
pub open spec fn spec_samples_of_bytes(bytes: Seq<u8>) -> Seq<i16> {
    Seq::new(
        bytes.len() / 2,
        |i: int| (bytes[2 * i] as u16 | (bytes[2 * i + 1] as u16) << 8) as i16,
    )
}

/// A fixed-capacity circular sample buffer: an arena indexed by a read
/// cursor and a write cursor, with a flag telling a full buffer from an
/// empty one when the cursors coincide.
pub struct RingBuffer {
    contents: Vec<i16>,
    current_position_read: usize,
    current_position_write: usize,
    buffer_full: bool,
}

impl RingBuffer {
    /// The cursors stay inside the arena and the flag only ever holds with
    /// coinciding cursors.
    pub closed spec fn wf(&self) -> bool {
        &&& self.contents@.len() == BUFFER_SIZE
        &&& self.current_position_read < BUFFER_SIZE
        &&& self.current_position_write < BUFFER_SIZE
        &&& (self.buffer_full ==> self.current_position_read == self.current_position_write)
    }

    /// The queued samples, oldest first: what has been put and not yet
    /// taken.
    pub closed spec fn queued(&self) -> Seq<i16> {
        let r = self.current_position_read as int;
        let w = self.current_position_write as int;
        if self.buffer_full {
            self.contents@.skip(r) + self.contents@.take(r)
        } else if w >= r {
            self.contents@.subrange(r, w)
        } else {
            self.contents@.skip(r) + self.contents@.take(w)
        }
    }

    /// An empty buffer.
    pub fn new() -> (r: RingBuffer)
        ensures
            r.wf(),
            r.queued() == Seq::<i16>::empty(),
    {
        let contents: Vec<i16> = vec![0i16; BUFFER_SIZE];
        let r = RingBuffer {
            contents,
            current_position_read: 0,
            current_position_write: 0,
            buffer_full: false,
        };
        proof {
            assert(r.queued() =~= Seq::<i16>::empty());
        }
        r
    }

    /// Appends one sample; if the buffer is full the oldest unread sample
    /// is discarded to make room.
    pub fn put(&mut self, sample: i16)
        requires
            old(self).wf(),
        ensures
            final(self).wf(),
            final(self).queued() == spec_put(old(self).queued(), sample),
    {
        proof {
            assert(old(self).queued().len() <= BUFFER_SIZE);
        }
        if self.buffer_full {
            // buffer is full, move read position forward to make space
            self.current_position_read = (self.current_position_read + 1) % BUFFER_SIZE;
        }
        let w = self.current_position_write;
        self.contents[w] = sample;
        self.current_position_write = (self.current_position_write + 1) % BUFFER_SIZE;
        self.buffer_full = self.current_position_write == self.current_position_read;
        proof {
            assert(self.queued() =~= spec_put(old(self).queued(), sample));
        }
    }

    /// Removes and returns the oldest sample; an empty buffer yields
    /// silence and is left exactly as a no-op would leave it.
    pub fn take(&mut self) -> (sample: i16)
        requires
            old(self).wf(),
        ensures
            final(self).wf(),
            old(self).queued().len() == 0 ==> sample == 0 && *final(self) == *old(self),
            old(self).queued().len() > 0 ==> sample == old(self).queued()[0] && final(self).queued()
                == old(self).queued().skip(1),
    {
        if self.current_position_read == self.current_position_write && !self.buffer_full {
            // buffer is empty
            proof {
                assert(old(self).queued().len() == 0);
            }
            return 0;
        }
        let sample = self.contents[self.current_position_read];
        self.current_position_read = (self.current_position_read + 1) % BUFFER_SIZE;
        self.buffer_full = false;  // once data is read, buffer can't be full
        proof {
            assert(old(self).queued().len() > 0);
            assert(self.queued() =~= old(self).queued().skip(1));
        }
        sample
    }

    /// Decodes a little-endian PCM byte block, two bytes per sample, and
    /// appends every sample in order.
    pub fn put_bytes(&mut self, bytes: &Vec<u8>)
        requires
            old(self).wf(),
            bytes@.len() % 2 == 0,
        ensures
            final(self).wf(),
            final(self).queued() == spec_put_all(old(self).queued(), spec_samples_of_bytes(bytes@)),
    {
        let ghost samples = spec_samples_of_bytes(bytes@);
        proof {
            assert(samples.skip(0) =~= samples);
        }
        let mut i: usize = 0;
        while i + 1 < bytes.len()
            invariant
                self.wf(),
                i % 2 == 0,
                i <= bytes@.len(),
                bytes@.len() % 2 == 0,
                spec_put_all(old(self).queued(), samples) == spec_put_all(
                    self.queued(),
                    samples.skip(i as int / 2),
                ),
                samples == spec_samples_of_bytes(bytes@),
            decreases bytes@.len() - i,
        {
            let lo = bytes[i];
            let hi = bytes[i + 1];
            let sample = #[verifier::truncate] ((lo as u16 | (hi as u16) << 8) as i16);
            proof {
                let k = i as int / 2;
                assert(samples[k] == sample);
                assert(samples.skip(k).len() > 0);
                assert(samples.skip(k)[0] == samples[k]);
                assert(samples.skip(k).skip(1) =~= samples.skip(k + 1));
            }
            self.put(sample);
            i = i + 2;
        }
        proof {
            assert(i == bytes@.len());
            assert(samples.skip(i as int / 2) =~= Seq::<i16>::empty());
            assert(spec_put_all(self.queued(), Seq::<i16>::empty()) == self.queued());
        }
    }
}

/// Filling a buffer past its capacity keeps exactly the newest
/// `BUFFER_SIZE` samples, oldest first: what `spec_put_all` leaves of a
/// sample sequence longer than the buffer is its final `BUFFER_SIZE`
/// elements.
pub proof fn lemma_put_all_overflow(samples: Seq<i16>)
    requires
        samples.len() >= BUFFER_SIZE,
    ensures
        spec_put_all(Seq::<i16>::empty(), samples) == samples.skip(
            samples.len() - BUFFER_SIZE as int,
        ),
{
    lemma_put_all_window(Seq::<i16>::empty(), samples);
    assert((Seq::<i16>::empty() + samples) =~= samples);
}

/// Filling a buffer that is not over capacity keeps, of the queued samples
/// followed by the new ones, the newest `BUFFER_SIZE` (or all, if they
/// fit).
pub proof fn lemma_put_all_window(q: Seq<i16>, samples: Seq<i16>)
    requires
        q.len() <= BUFFER_SIZE,
    ensures
        spec_put_all(q, samples) == if q.len() + samples.len() <= BUFFER_SIZE {
            q + samples
        } else {
            (q + samples).skip(q.len() + samples.len() - BUFFER_SIZE as int)
        },
    decreases samples.len(),
{
    if samples.len() == 0 {
        assert(q + samples =~= q);
    } else {
        let q2 = spec_put(q, samples[0]);
        lemma_put_all_window(q2, samples.skip(1));
        if q.len() < BUFFER_SIZE {
            assert(q2 + samples.skip(1) =~= q + samples);
        } else {
            assert(q2 =~= (q + samples).subrange(1, q.len() + 1 as int));
            assert(q2 + samples.skip(1) =~= (q + samples).skip(1));
            if q2.len() + samples.len() - 1 <= BUFFER_SIZE {
                assert(spec_put_all(q, samples) =~= (q + samples).skip(
                    q.len() + samples.len() - BUFFER_SIZE as int,
                ));
            } else {
                assert(((q + samples).skip(1)).skip(q2.len() + samples.len() - 1 - BUFFER_SIZE as int)
                    =~= (q + samples).skip(q.len() + samples.len() - BUFFER_SIZE as int));
            }
        }
    }
}

} // verus!
