use vstd::prelude::*;

use crate::error::JamError;
use crate::source::{StreamingSoundSource, StreamingState};

verus! {

/// The low-water mark: a streaming voice is refilled while fewer buffers than
/// this are queued on it.
pub const STREAM_TARGET_BUFFERS: i32 = 5;

/// How many samples one refill decodes at most.
pub const STREAM_CHUNK_SAMPLES: usize = 50_000;

/// What to do with a freshly decoded chunk.
#[derive(PartialEq, Eq, Structural, Debug, Clone, Copy)]
pub enum ChunkPlan {
    /// Nothing was decoded: the stream has ended and nothing is queued.
    Skip,
    /// Upload the chunk and queue it on the voice, into a buffer the voice has
    /// finished playing when `reuse_processed` holds, else into a new one.
    Queue { reuse_processed: bool, stereo: bool },
}

/// Whether a refill is due: too few buffers queued, or some already played
/// and waiting to be recycled.
pub open spec fn refill_due(queued: i32, processed: i32) -> bool {
    queued < STREAM_TARGET_BUFFERS || processed > 0
}

/// Whether a chunk of `samples` samples ends the stream: it came up short of
/// a full chunk, or the decoder failed while reading it.
pub open spec fn ends_stream(samples: usize, read_failed: bool) -> bool {
    samples < STREAM_CHUNK_SAMPLES || read_failed
}

impl<P> StreamingSoundSource<P> {
    /// One decision of the refill loop, given the voice's queued and
    /// processed buffer counts: decode another chunk while the stream is open
    /// and a refill is due.
    pub fn needs_chunk(&self, queued: i32, processed: i32) -> (r: bool)
        ensures
            r == (self.stream is Some && refill_due(queued, processed)),
    {
        self.stream.is_some() && (queued < STREAM_TARGET_BUFFERS || processed > 0)
    }

    /// Accounts for a chunk of `samples` interleaved samples of `channels`
    /// channels just decoded from the open stream; `read_failed` tells that the
    /// decoder failed while reading it, and `processed` is the voice's count
    /// of played buffers now. At end of file (an empty chunk, or one that ends
    /// the stream) the decoder is dropped and refilling stops; audio of other
    /// than one or two channels is refused and leaves the voice as it was.
    pub fn chunk_decoded(&mut self, samples: usize, read_failed: bool, channels: u8, processed: i32) -> (r: Result<ChunkPlan, JamError>)
        requires
            old(self).stream matches Some(st) && st.decoded_samples + samples <= u64::MAX
                && st.queued_chunks < u64::MAX,
        ensures
            final(self).current_binding == old(self).current_binding,
            samples == 0 ==> r == Ok::<ChunkPlan, JamError>(ChunkPlan::Skip) && final(self).stream is None,
            samples > 0 && channels != 1 && channels != 2 ==> r == Err::<ChunkPlan, JamError>(JamError::TooManyChannels)
                && final(self).stream == old(self).stream,
            samples > 0 && (channels == 1 || channels == 2) ==> {
                &&& r == Ok::<ChunkPlan, JamError>(
                    ChunkPlan::Queue { reuse_processed: processed > 0, stereo: channels == 2 },
                )
                &&& final(self).stream == if ends_stream(samples, read_failed) {
                    None
                } else {
                    Some(
                        StreamingState {
                            decoded_samples: (old(self).stream->Some_0.decoded_samples + samples) as u64,
                            queued_chunks: (old(self).stream->Some_0.queued_chunks + 1) as u64,
                        },
                    )
                }
            },
    {
        if samples == 0 {
            self.stream = None;
            return Ok(ChunkPlan::Skip);
        }
        if channels != 1 && channels != 2 {
            return Err(JamError::TooManyChannels);
        }
        let plan = ChunkPlan::Queue { reuse_processed: processed > 0, stereo: channels == 2 };
        if samples < STREAM_CHUNK_SAMPLES || read_failed {
            self.stream = None;
        } else {
            match self.stream {
                Some(st) => {
                    self.stream = Some(
                        StreamingState {
                            decoded_samples: st.decoded_samples + samples as u64,
                            queued_chunks: st.queued_chunks + 1,
                        },
                    );
                },
                None => {},
            }
        }
        Ok(plan)
    }
}

} // verus!
