use vstd::prelude::*;
use vstd::string::*;

use crate::audio::{SoundEvent, SoundName};
use crate::error::JamError;
use crate::load::{load_ogg, ogg_decoded, Sound};
use crate::source::{
    combined, CombinedSource, SoundBinding, SoundSource, SoundSourceLoan, Sources,
    StreamingSoundSource,
};

verus! {

/// A decoded sound held by the device, as the cache records it.
pub struct SoundBuffer {
    pub name: SoundName,
    pub sample_rate: u32,
    pub channels: u8,
    /// Interleaved samples over all channels.
    pub samples: usize,
}

/// What is known of a sound's file: its size in bytes, its contents where
/// they were read (a file that is streamed is not read whole), and whether a
/// decoder opened on it where it is streamed.
pub struct SoundFile {
    pub size: u64,
    pub contents: Vec<u8>,
    /// For a streamed file: whether a decoder could be opened on it.
    pub stream_opened: bool,
}

/// Work for the audio device that a decision of this layer calls for, in the
/// order it is to be done.
pub enum SoundAction {
    /// Create a device buffer for `name` holding `sound`.
    Upload { name: SoundName, sound: Sound },
    /// Re-apply the occupant's parameters and loop flag to the voice.
    Refresh(CombinedSource),
    /// Attach the buffer of the occupant's sound to this static voice, apply
    /// the occupant's parameters and loop flag, and start playback.
    PlayStatic(usize),
    /// Open a decoder on the file at `path` for this streaming voice, fill the
    /// voice through the refill steps, apply the occupant's parameters, and
    /// start playback.
    PlayStreaming { source_id: usize, path: String },
    /// Stop the voice: detach its buffer, or drain the buffers queued on it.
    Stop(CombinedSource),
    /// Drop every device buffer.
    DropBuffers,
}

/// The playback engine: the voice pool, the cache of decoded sounds, and
/// where sound files are found.
pub struct SoundContext<P> {
    /// Directory of the sound files.
    pub path: String,
    /// Extension of the sound files, without the dot.
    pub extension: String,
    pub sources: Sources<P>,
    pub buffers: Vec<SoundBuffer>,
    /// Files larger than this many bytes are streamed rather than decoded whole.
    pub stream_above_file_size: u64,
}

/// Whether audio of `channels` channels can be played by a voice.
pub open spec fn playable_channels(channels: u8) -> bool {
    channels == 1 || channels == 2
}

/// `a` uploads the decoded audio `decoded` as the buffer of `name`.
pub open spec fn uploads(a: SoundAction, name: Seq<char>, decoded: (Seq<i16>, u32, u8)) -> bool {
    a matches SoundAction::Upload { name: n, sound } && n@ == name && sound.data@ == decoded.0
        && sound.sample_rate == decoded.1 && sound.channels == decoded.2
}

/// The cache entry recording the decoded audio `decoded` under `name`.
pub open spec fn buffer_entry(name: SoundName, decoded: (Seq<i16>, u32, u8)) -> SoundBuffer {
    SoundBuffer {
        name,
        sample_rate: decoded.1,
        channels: decoded.2,
        samples: decoded.0.len() as usize,
    }
}

/// `after` is `before` once a slot of the kind was asked for `sound_event`:
/// `r` is the loan, or `NoFreeSource` when every slot of the kind was busy.
pub open spec fn placed<P>(
    before: Sources<P>,
    after: Sources<P>,
    streaming: bool,
    sound_event: SoundEvent<P>,
    r: Result<SoundSourceLoan, JamError>,
) -> bool {
    match r {
        Ok(l) => before.lent(after, streaming, sound_event, Some(l)),
        Err(e) => e == JamError::NoFreeSource(streaming) && before.lent(
            after,
            streaming,
            sound_event,
            None,
        ),
    }
}

/// `after` is `before` with the slot of `l` bound to `sound_event` under the
/// loan's own id, the slot's stream and every other slot untouched.
pub open spec fn refreshed<P>(
    before: Sources<P>,
    after: Sources<P>,
    l: SoundSourceLoan,
    sound_event: SoundEvent<P>,
) -> bool {
    &&& after.next_event == before.next_event
    &&& if l.streaming {
        &&& after.sources == before.sources
        &&& after.streaming@ == before.streaming@.update(
            l.source_id as int,
            StreamingSoundSource {
                stream: before.streaming@[l.source_id as int].stream,
                current_binding: Some(SoundBinding { event_id: l.event_id, sound_event }),
            },
        )
    } else {
        &&& after.streaming == before.streaming
        &&& after.sources@ == before.sources@.update(
            l.source_id as int,
            SoundSource { current_binding: Some(SoundBinding { event_id: l.event_id, sound_event }) },
        )
    }
}

/// Refreshing an honoured loan keeps it: the same slot, the same id, still
/// honoured, with the slot now holding the new event and the counter
/// untouched.
pub proof fn lemma_refresh_keeps_loan<P>(
    before: Sources<P>,
    after: Sources<P>,
    loan: SoundSourceLoan,
    sound_event: SoundEvent<P>,
)
    requires
        before.loan_valid(loan),
        refreshed(before, after, loan, sound_event),
    ensures
        after.loan_valid(loan),
        after.binding_at(loan.streaming, loan.source_id as int) == Some(
            SoundBinding { event_id: loan.event_id, sound_event },
        ),
        after.next_event == before.next_event,
{
}

/// With every static voice busy, asking for a static voice fails with
/// `NoFreeSource(false)` and binds nothing.
pub proof fn lemma_pool_exhaustion<P>(
    before: Sources<P>,
    after: Sources<P>,
    sound_event: SoundEvent<P>,
    r: Result<SoundSourceLoan, JamError>,
)
    requires
        before.all_bound(false),
        placed(before, after, false, sound_event, r),
    ensures
        r == Err::<SoundSourceLoan, JamError>(JamError::NoFreeSource(false)),
        after.sources == before.sources,
        after.streaming == before.streaming,
{
}

/// A cache that keeps its entries and only adds some keeps every name cached.
proof fn lemma_cache_grows<P>(before: SoundContext<P>, after: SoundContext<P>)
    requires
        before.buffers@.len() <= after.buffers@.len(),
        forall|i: int| 0 <= i < before.buffers@.len() ==> after.buffers@[i] == before.buffers@[i],
    ensures
        forall|x: Seq<char>| #[trigger] before.cached(x) ==> after.cached(x),
{
    assert forall|x: Seq<char>| #[trigger] before.cached(x) implies after.cached(x) by {
        let i = choose|i: int| 0 <= i < before.buffers@.len() && #[trigger] before.buffers@[i].name@ == x;
        assert(after.buffers@[i] == before.buffers@[i]);
    }
}

/// Creates an engine with no voices and an empty cache.
pub fn create_sound_context<P>(path: &str, extension: &str, stream_above_file_size: u64) -> (r:
    SoundContext<P>)
    ensures
        r.wf(),
        r.path@ == path@,
        r.extension@ == extension@,
        r.stream_above_file_size == stream_above_file_size,
        r.sources.next_event == 0,
        r.sources.sources@.len() == 0,
        r.sources.streaming@.len() == 0,
        r.buffers@.len() == 0,
{
    SoundContext {
        path: String::from_str(path),
        extension: String::from_str(extension),
        sources: Sources { next_event: 0, sources: Vec::new(), streaming: Vec::new() },
        buffers: Vec::new(),
        stream_above_file_size,
    }
}

impl<P> SoundContext<P> {
    /// Whether a decoded sound is cached under `name`.
    pub open spec fn cached(self, name: Seq<char>) -> bool {
        exists|i: int| 0 <= i < self.buffers@.len() && #[trigger] self.buffers@[i].name@ == name
    }

    /// The pool is well formed and no name is cached twice.
    pub open spec fn wf(self) -> bool {
        &&& self.sources.wf()
        &&& forall|i: int, j: int|
            0 <= i < self.buffers@.len() && 0 <= j < self.buffers@.len() && i != j
                ==> #[trigger] self.buffers@[i].name@ != #[trigger] self.buffers@[j].name@
    }

    /// Where the file of the sound `name` lies.
    pub open spec fn path_for(self, name: Seq<char>) -> Seq<char> {
        self.path@ + seq!['/'] + name + seq!['.'] + self.extension@
    }

    /// Whether a file of `size` bytes is streamed.
    pub open spec fn streams(self, size: u64) -> bool {
        size > self.stream_above_file_size
    }

    /// Whether `loan` is given and still honoured.
    pub open spec fn refreshes(self, loan: Option<SoundSourceLoan>) -> bool {
        loan matches Some(l) && self.sources.loan_valid(l)
    }

    /// Both engines find and judge files alike.
    pub open spec fn same_config(self, other: Self) -> bool {
        &&& self.path == other.path
        &&& self.extension == other.extension
        &&& self.stream_above_file_size == other.stream_above_file_size
    }

    /// Adds `static_count` static and `streaming_count` streaming voices,
    /// all free.
    pub fn create(&mut self, static_count: usize, streaming_count: usize)
        requires
            old(self).wf(),
        ensures
            final(self).wf(),
            final(self).same_config(*old(self)),
            final(self).buffers == old(self).buffers,
            final(self).sources.next_event == old(self).sources.next_event,
            final(self).sources.sources@.len() == old(self).sources.sources@.len() + static_count,
            final(self).sources.streaming@.len() == old(self).sources.streaming@.len()
                + streaming_count,
            forall|i: int|
                0 <= i < final(self).sources.sources@.len() ==> #[trigger] final(self).sources.sources@[i] == if i < old(self).sources.sources@.len() {
                    old(self).sources.sources@[i]
                } else {
                    SoundSource { current_binding: None }
                },
            forall|i: int|
                0 <= i < final(self).sources.streaming@.len() ==> #[trigger] final(self).sources.streaming@[i] == if i < old(self).sources.streaming@.len() {
                    old(self).sources.streaming@[i]
                } else {
                    StreamingSoundSource { stream: None, current_binding: None }
                },
    {
        let ghost before = self.sources;
        let mut n: usize = 0;
        while n < static_count
            invariant
                n <= static_count,
                self.sources.next_event == before.next_event,
                self.sources.streaming == before.streaming,
                self.sources.sources@.len() == before.sources@.len() + n,
                forall|i: int|
                    0 <= i < self.sources.sources@.len() ==> #[trigger] self.sources.sources@[i]
                        == if i < before.sources@.len() {
                        before.sources@[i]
                    } else {
                        SoundSource { current_binding: None }
                    },
                self.same_config(*old(self)),
                self.buffers == old(self).buffers,
            decreases static_count - n,
        {
            self.sources.sources.push(SoundSource { current_binding: None });
            n = n + 1;
        }
        let mut k: usize = 0;
        while k < streaming_count
            invariant
                k <= streaming_count,
                self.sources.next_event == before.next_event,
                self.sources.sources@.len() == before.sources@.len() + static_count,
                forall|i: int|
                    0 <= i < self.sources.sources@.len() ==> #[trigger] self.sources.sources@[i]
                        == if i < before.sources@.len() {
                        before.sources@[i]
                    } else {
                        SoundSource { current_binding: None }
                    },
                self.sources.streaming@.len() == before.streaming@.len() + k,
                forall|i: int|
                    0 <= i < self.sources.streaming@.len() ==> #[trigger] self.sources.streaming@[i]
                        == if i < before.streaming@.len() {
                        before.streaming@[i]
                    } else {
                        StreamingSoundSource { stream: None, current_binding: None }
                    },
                self.same_config(*old(self)),
                self.buffers == old(self).buffers,
            decreases streaming_count - k,
        {
            self.sources.streaming.push(StreamingSoundSource { stream: None, current_binding: None });
            k = k + 1;
        }
        proof {
            let s = self.sources;
            assert forall|t: bool, i: int| s.has_slot(t, i) && #[trigger] s.is_bound(t, i) implies before.has_slot(t, i)
                && before.binding_at(t, i) == s.binding_at(t, i) by {
                if t {
                    assert(s.streaming@[i] == before.streaming@[i]);
                } else {
                    assert(s.sources@[i] == before.sources@[i]);
                }
            }
            assert forall|t: bool, i: int| s.has_slot(t, i) && #[trigger] s.is_bound(t, i) implies s.event_at(t, i) <= s.next_event by {
                assert(before.is_bound(t, i));
            }
            assert forall|t: bool, i: int, u: bool, j: int|
                s.has_slot(t, i) && s.has_slot(u, j) && #[trigger] s.is_bound(t, i)
                    && #[trigger] s.is_bound(u, j) && (t != u || i != j) implies s.event_at(t, i)
                != s.event_at(u, j) by {
                assert(before.is_bound(t, i));
                assert(before.is_bound(u, j));
            }
        }
    }

    /// The path of the file of the sound `name`: `<path>/<name>.<extension>`.
    pub fn full_path(&self, name: &str) -> (r: String)
        ensures
            r@ == self.path_for(name@),
    {
        let mut p = self.path.clone();
        p.append("/");
        p.append(name);
        p.append(".");
        p.append(self.extension.as_str());
        proof {
            reveal_strlit("/");
            reveal_strlit(".");
        }
        p
    }

    /// The index of the cache entry of `name`.
    fn find_buffer(&self, name: &String) -> (r: Option<usize>)
        ensures
            r is None <==> !self.cached(name@),
            r matches Some(i) ==> i < self.buffers@.len() && self.buffers@[i as int].name@ == name@,
    {
        let len = self.buffers.len();
        let mut i: usize = 0;
        while i < len
            invariant
                len == self.buffers@.len(),
                i <= len,
                forall|j: int| 0 <= j < i ==> (#[trigger] self.buffers@[j]).name@ != name@,
            decreases len - i,
        {
            if self.buffers[i].name == *name {
                return Some(i);
            }
            i = i + 1;
        }
        None
    }

    /// Whether a decoded sound is cached under `name`.
    pub fn is_loaded(&self, name: &String) -> (r: bool)
        ensures
            r == self.cached(name@),
    {
        self.find_buffer(name).is_some()
    }

    /// Whether a file of `size` bytes is streamed rather than decoded whole.
    pub fn should_stream(&self, size: u64) -> (r: bool)
        ensures
            r == self.streams(size),
    {
        size > self.stream_above_file_size
    }

    /// Decodes `contents` and caches the result under `name`, with an upload
    /// for the device; audio that a voice cannot play is refused.
    fn decode_into_cache(
        &mut self,
        name: &String,
        contents: &[u8],
        actions: &mut Vec<SoundAction>,
    ) -> (r: Result<(), JamError>)
        requires
            old(self).wf(),
            !old(self).cached(name@),
        ensures
            final(self).wf(),
            final(self).same_config(*old(self)),
            final(self).sources == old(self).sources,
            match ogg_decoded(contents@) {
                None => r == Err::<(), JamError>(JamError::DecodeError) && final(self).buffers
                    == old(self).buffers && final(actions)@ == old(actions)@,
                Some(d) => if !playable_channels(d.2) {
                    r == Err::<(), JamError>(JamError::TooManyChannels) && final(self).buffers
                        == old(self).buffers && final(actions)@ == old(actions)@
                } else {
                    &&& r is Ok
                    &&& final(self).buffers@ == old(self).buffers@.push(buffer_entry(*name, d))
                    &&& final(actions)@.len() == old(actions)@.len() + 1
                    &&& final(actions)@.drop_last() == old(actions)@
                    &&& uploads(final(actions)@.last(), name@, d)
                },
            },
    {
        let sound = match load_ogg(contents) {
            Ok(s) => s,
            Err(e) => {
                return Err(e);
            },
        };
        if sound.channels != 1 && sound.channels != 2 {
            return Err(JamError::TooManyChannels);
        }
        let entry = SoundBuffer {
            name: name.clone(),
            sample_rate: sound.sample_rate,
            channels: sound.channels,
            samples: sound.data.len(),
        };
        self.buffers.push(entry);
        actions.push(SoundAction::Upload { name: name.clone(), sound });
        proof {
            assert(final(actions)@.drop_last() =~= old(actions)@);
            assert forall|i: int, j: int|
                0 <= i < self.buffers@.len() && 0 <= j < self.buffers@.len() && i != j
                    implies #[trigger] self.buffers@[i].name@ != #[trigger] self.buffers@[j].name@ by {
                if i < old(self).buffers@.len() && j < old(self).buffers@.len() {
                } else if i < old(self).buffers@.len() {
                    assert(old(self).buffers@[i].name@ != name@);
                } else {
                    assert(old(self).buffers@[j].name@ != name@);
                }
            }
        }
        Ok(())
    }

    /// Makes sure the sound `name` is cached: a cached one is left as it is;
    /// otherwise its file is decoded and cached, with an upload for the
    /// device. `file` is what is known of the file; `None` when there is none.
    pub fn load_sound(
        &mut self,
        sound_name: &String,
        file: Option<&SoundFile>,
        actions: &mut Vec<SoundAction>,
    ) -> (r: Result<(), JamError>)
        requires
            old(self).wf(),
        ensures
            final(self).wf(),
            final(self).same_config(*old(self)),
            final(self).sources == old(self).sources,
            old(self).cached(sound_name@) ==> r is Ok && final(self).buffers == old(self).buffers
                && final(actions)@ == old(actions)@,
            !old(self).cached(sound_name@) && file is None ==> {
                &&& r matches Err(JamError::FileDoesntExist(p)) && p@ == old(self).path_for(
                    sound_name@,
                )
                &&& final(self).buffers == old(self).buffers
                &&& final(actions)@ == old(actions)@
            },
            !old(self).cached(sound_name@) && file is Some ==> match ogg_decoded(
                file->Some_0.contents@,
            ) {
                None => r == Err::<(), JamError>(JamError::DecodeError) && final(self).buffers
                    == old(self).buffers && final(actions)@ == old(actions)@,
                Some(d) => if !playable_channels(d.2) {
                    r == Err::<(), JamError>(JamError::TooManyChannels) && final(self).buffers
                        == old(self).buffers && final(actions)@ == old(actions)@
                } else {
                    &&& r is Ok
                    &&& final(self).buffers@ == old(self).buffers@.push(
                        buffer_entry(*sound_name, d),
                    )
                    &&& final(actions)@.len() == old(actions)@.len() + 1
                    &&& final(actions)@.drop_last() == old(actions)@
                    &&& uploads(final(actions)@.last(), sound_name@, d)
                },
            },
    {
        if self.find_buffer(sound_name).is_some() {
            return Ok(());
        }
        match file {
            None => Err(JamError::FileDoesntExist(self.full_path(sound_name.as_str()))),
            Some(f) => self.decode_into_cache(sound_name, f.contents.as_slice(), actions),
        }
    }

    /// Asks for the first free static slot for `sound_event`; on success the
    /// voice is to start playing the cached buffer of its sound.
    fn place_static(&mut self, sound_event: SoundEvent<P>, actions: &mut Vec<SoundAction>) -> (r:
        Result<SoundSourceLoan, JamError>)
        requires
            old(self).wf(),
            old(self).sources.next_event < u64::MAX,
        ensures
            final(self).wf(),
            final(self).same_config(*old(self)),
            final(self).buffers == old(self).buffers,
            placed(old(self).sources, final(self).sources, false, sound_event, r),
            final(actions)@ == match r {
                Ok(l) => old(actions)@.push(SoundAction::PlayStatic(l.source_id)),
                Err(_) => old(actions)@,
            },
    {
        match self.sources.loan_next_free_static(sound_event) {
            Some(l) => {
                actions.push(SoundAction::PlayStatic(l.source_id));
                Ok(l)
            },
            None => Err(JamError::NoFreeSource(false)),
        }
    }

    /// Plays `sound_event`, reusing the voice of `loan` while that loan is
    /// honoured.
    ///
    /// With an honoured loan the occupant of its slot is replaced by
    /// `sound_event` under the same id, and the same loan comes back; the voice
    /// is only to take the new parameters. Otherwise the sound is placed on a
    /// fresh voice, first fit and never displacing a busy one: a cached sound
    /// on a static voice; else, from what `file` tells of its file (`None`
    /// when there is none), a file above the streaming threshold on a
    /// streaming voice once a decoder opened on it (else it is a decode
    /// error and nothing is bound), and a smaller one is decoded, cached, and played on a
    /// static voice. The work for the device is appended to `actions`.
    pub fn play_event(
        &mut self,
        sound_event: SoundEvent<P>,
        loan: Option<SoundSourceLoan>,
        file: Option<&SoundFile>,
        actions: &mut Vec<SoundAction>,
    ) -> (r: Result<SoundSourceLoan, JamError>)
        requires
            old(self).wf(),
            old(self).sources.next_event < u64::MAX,
        ensures
            final(self).wf(),
            final(self).same_config(*old(self)),
            old(self).sources.keeps_bindings(final(self).sources),
            old(self).sources.changes_only(final(self).sources, r),
            forall|x: Seq<char>| #[trigger] old(self).cached(x) ==> final(self).cached(x),
            !old(self).refreshes(loan) && r is Ok ==> !old(self).sources.is_bound(
                r->Ok_0.streaming,
                r->Ok_0.source_id as int,
            ),
            r matches Ok(l) ==> final(self).sources.loan_valid(l),
            r matches Ok(l) ==> final(self).sources.binding_at(l.streaming, l.source_id as int)
                == Some(SoundBinding { event_id: l.event_id, sound_event }),
            !old(self).refreshes(loan) ==> final(self).sources.next_event == old(self).sources.next_event
                || final(self).sources.next_event == old(self).sources.next_event + 1,
            !old(self).refreshes(loan) && r is Ok ==> r->Ok_0.event_id == final(self).sources.next_event
                && final(self).sources.next_event == old(self).sources.next_event + 1,
            old(self).refreshes(loan) ==> {
                &&& r == Ok::<SoundSourceLoan, JamError>(loan->Some_0)
                &&& refreshed(old(self).sources, final(self).sources, loan->Some_0, sound_event)
                &&& final(self).buffers == old(self).buffers
                &&& final(actions)@ == old(actions)@.push(
                    SoundAction::Refresh(
                        combined(loan->Some_0.streaming, loan->Some_0.source_id as int),
                    ),
                )
            },
            !old(self).refreshes(loan) && old(self).cached(sound_event.name@) ==> {
                &&& placed(old(self).sources, final(self).sources, false, sound_event, r)
                &&& final(self).buffers == old(self).buffers
                &&& final(actions)@ == match r {
                    Ok(l) => old(actions)@.push(SoundAction::PlayStatic(l.source_id)),
                    Err(_) => old(actions)@,
                }
            },
            !old(self).refreshes(loan) && !old(self).cached(sound_event.name@) && file is None
                ==> {
                &&& r matches Err(JamError::FileDoesntExist(p)) && p@ == old(self).path_for(
                    sound_event.name@,
                )
                &&& final(self).sources == old(self).sources
                &&& final(self).buffers == old(self).buffers
                &&& final(actions)@ == old(actions)@
            },
            !old(self).refreshes(loan) && !old(self).cached(sound_event.name@) && file is Some
                && old(self).streams(file->Some_0.size) && !file->Some_0.stream_opened ==> {
                &&& r == Err::<SoundSourceLoan, JamError>(JamError::DecodeError)
                &&& final(self).sources == old(self).sources
                &&& final(self).buffers == old(self).buffers
                &&& final(actions)@ == old(actions)@
            },
            !old(self).refreshes(loan) && !old(self).cached(sound_event.name@) && file is Some
                && old(self).streams(file->Some_0.size) && file->Some_0.stream_opened ==> {
                &&& placed(old(self).sources, final(self).sources, true, sound_event, r)
                &&& final(self).buffers == old(self).buffers
                &&& r is Err ==> final(actions)@ == old(actions)@
                &&& r matches Ok(l) ==> {
                    &&& final(actions)@.len() == old(actions)@.len() + 1
                    &&& final(actions)@.drop_last() == old(actions)@
                    &&& final(actions)@.last() matches SoundAction::PlayStreaming {
                        source_id,
                        path,
                    } && source_id == l.source_id && path@ == old(self).path_for(
                        sound_event.name@,
                    )
                }
            },
            !old(self).refreshes(loan) && !old(self).cached(sound_event.name@) && file is Some
                && !old(self).streams(file->Some_0.size) ==> match ogg_decoded(
                file->Some_0.contents@,
            ) {
                None => {
                    &&& r == Err::<SoundSourceLoan, JamError>(JamError::DecodeError)
                    &&& final(self).sources == old(self).sources
                    &&& final(self).buffers == old(self).buffers
                    &&& final(actions)@ == old(actions)@
                },
                Some(d) => if !playable_channels(d.2) {
                    &&& r == Err::<SoundSourceLoan, JamError>(JamError::TooManyChannels)
                    &&& final(self).sources == old(self).sources
                    &&& final(self).buffers == old(self).buffers
                    &&& final(actions)@ == old(actions)@
                } else {
                    &&& final(self).buffers@ == old(self).buffers@.push(
                        buffer_entry(sound_event.name, d),
                    )
                    &&& placed(old(self).sources, final(self).sources, false, sound_event, r)
                    &&& uploads(final(actions)@[old(actions)@.len() as int], sound_event.name@, d)
                    &&& final(actions)@.subrange(0, old(actions)@.len() as int) == old(actions)@
                    &&& final(actions)@.len() == old(actions)@.len() + match r {
                        Ok(_) => 2int,
                        Err(_) => 1int,
                    }
                    &&& r matches Ok(l) ==> final(actions)@.last() == SoundAction::PlayStatic(
                        l.source_id,
                    )
                },
            },
    {
        match loan {
            Some(l) => {
                match self.sources.for_loan(l) {
                    Some(c) => {
                        let ghost before = self.sources;
                        c.assign_event(&mut self.sources, sound_event, l.event_id);
                        actions.push(SoundAction::Refresh(c));
                        proof {
                            let after = self.sources;
                            assert forall|s: bool, i: int|
                                after.has_slot(s, i) && #[trigger] after.is_bound(s, i) implies before.has_slot(s, i)
                                    && before.is_bound(s, i) && after.event_at(s, i) == before.event_at(s, i) by {
                                if s == l.streaming && i == l.source_id {
                                } else if s {
                                    assert(after.streaming@[i] == before.streaming@[i]);
                                } else {
                                    assert(after.sources@[i] == before.sources@[i]);
                                }
                            }
                            after.lemma_fewer_bindings_keeps_wf(before);
                            lemma_cache_grows(*old(self), *self);
                            assert forall|s: bool, i: int|
                                before.has_slot(s, i) && #[trigger] before.is_bound(s, i) implies after.is_bound(s, i)
                                    && after.event_at(s, i) == before.event_at(s, i) by {
                                if s == l.streaming && i == l.source_id {
                                } else if s {
                                    assert(after.streaming@[i] == before.streaming@[i]);
                                } else {
                                    assert(after.sources@[i] == before.sources@[i]);
                                }
                            }
                        }
                        return Ok(l);
                    },
                    None => {},
                }
            },
            None => {},
        }
        let name = sound_event.name.clone();
        if self.find_buffer(&name).is_some() {
            return self.place_static(sound_event, actions);
        }
        let f = match file {
            None => {
                return Err(JamError::FileDoesntExist(self.full_path(name.as_str())));
            },
            Some(f) => f,
        };
        if f.size > self.stream_above_file_size {
            if !f.stream_opened {
                return Err(JamError::DecodeError);
            }
            let path = self.full_path(name.as_str());
            match self.sources.loan_next_free_streaming(sound_event) {
                Some(l) => {
                    actions.push(SoundAction::PlayStreaming { source_id: l.source_id, path });
                    proof {
                        assert(final(actions)@.drop_last() =~= old(actions)@);
                    }
                    Ok(l)
                },
                None => Err(JamError::NoFreeSource(true)),
            }
        } else {
            let ghost mid_actions = actions@;
            match self.decode_into_cache(&name, f.contents.as_slice(), actions) {
                Ok(()) => {},
                Err(e) => {
                    return Err(e);
                },
            }
            let ghost upload_actions = actions@;
            let r = self.place_static(sound_event, actions);
            proof {
                lemma_cache_grows(*old(self), *self);
                assert(actions@[old(actions)@.len() as int] == upload_actions.last());
                assert(actions@.subrange(0, old(actions)@.len() as int) =~= old(actions)@);
            }
            r
        }
    }

    /// Frees the voice of `loan` if the loan is still honoured, with a stop
    /// for the device; otherwise nothing changes.
    pub fn stop(&mut self, loan: SoundSourceLoan, actions: &mut Vec<SoundAction>)
        requires
            old(self).wf(),
        ensures
            final(self).wf(),
            final(self).same_config(*old(self)),
            final(self).buffers == old(self).buffers,
            final(self).sources.next_event == old(self).sources.next_event,
            !old(self).sources.loan_valid(loan) ==> final(self).sources == old(self).sources
                && final(actions)@ == old(actions)@,
            old(self).sources.loan_valid(loan) ==> {
                &&& !final(self).sources.is_bound(loan.streaming, loan.source_id as int)
                &&& forall|s: bool, i: int|
                    old(self).sources.has_slot(s, i) && (s != loan.streaming || i != loan.source_id)
                        ==> #[trigger] final(self).sources.binding_at(s, i) == old(self).sources.binding_at(s, i)
                &&& final(self).sources.slot_count(false) == old(self).sources.slot_count(false)
                &&& final(self).sources.slot_count(true) == old(self).sources.slot_count(true)
                &&& final(actions)@ == old(actions)@.push(
                    SoundAction::Stop(combined(loan.streaming, loan.source_id as int)),
                )
            },
    {
        match self.sources.for_loan(loan) {
            Some(c) => {
                let ghost before = self.sources;
                c.stop(&mut self.sources);
                actions.push(SoundAction::Stop(c));
                proof {
                    let after = self.sources;
                    assert forall|s: bool, i: int|
                        before.has_slot(s, i) && (s != loan.streaming || i != loan.source_id) implies #[trigger] after.binding_at(s, i)
                            == before.binding_at(s, i) by {
                        if s {
                            if 0 <= i < after.streaming@.len() {
                                assert(after.streaming@[i] == before.streaming@[i]);
                            }
                        } else {
                            if 0 <= i < after.sources@.len() {
                                assert(after.sources@[i] == before.sources@[i]);
                            }
                        }
                    }
                    assert forall|s: bool, i: int|
                        after.has_slot(s, i) && #[trigger] after.is_bound(s, i) implies before.has_slot(s, i)
                            && before.is_bound(s, i) && after.event_at(s, i) == before.event_at(s, i) by {
                        assert(after.binding_at(s, i) == before.binding_at(s, i));
                    }
                    after.lemma_fewer_bindings_keeps_wf(before);
                }
            },
            None => {},
        }
    }

    /// Frees every voice and drops every cached sound: each busy voice is to
    /// be stopped, static ones first, then every device buffer dropped.
    pub fn purge(&mut self, actions: &mut Vec<SoundAction>)
        requires
            old(self).wf(),
        ensures
            final(self).wf(),
            final(self).same_config(*old(self)),
            final(self).sources.all_free(),
            final(self).buffers@.len() == 0,
            final(self).sources.next_event == old(self).sources.next_event,
            final(self).sources.sources@.len() == old(self).sources.sources@.len(),
            final(self).sources.streaming@.len() == old(self).sources.streaming@.len(),
            final(actions)@ == old(actions)@ + (old(self).sources.busy_prefix(
                false,
                old(self).sources.sources@.len() as int,
            ) + old(self).sources.busy_prefix(
                true,
                old(self).sources.streaming@.len() as int,
            )).map_values(|c: CombinedSource| SoundAction::Stop(c)).push(SoundAction::DropBuffers),
    {
        let busy = self.sources.purge();
        let mut i: usize = 0;
        while i < busy.len()
            invariant
                i <= busy@.len(),
                actions@ == old(actions)@ + busy@.take(i as int).map_values(
                    |c: CombinedSource| SoundAction::Stop(c),
                ),
            decreases busy@.len() - i,
        {
            actions.push(SoundAction::Stop(busy[i]));
            proof {
                assert(busy@.take(i + 1).map_values(|c: CombinedSource| SoundAction::Stop(c))
                    =~= busy@.take(i as int).map_values(|c: CombinedSource| SoundAction::Stop(c)).push(
                    SoundAction::Stop(busy@[i as int]),
                ));
            }
            i = i + 1;
        }
        proof {
            assert(busy@.take(busy@.len() as int) =~= busy@);
        }
        self.buffers.clear();
        actions.push(SoundAction::DropBuffers);
    }
}

} // verus!
