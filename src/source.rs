use vstd::prelude::*;

use crate::audio::{SoundEvent, SoundEventId};

verus! {

/// A caller-held claim on a voice. It is honoured only while the addressed
/// slot is still bound to the event `event_id`.
#[derive(PartialEq, Eq, Structural, Debug, Clone, Copy)]
pub struct SoundSourceLoan {
    pub source_id: usize,
    pub event_id: SoundEventId,
    pub streaming: bool,
}

/// Which event currently occupies a voice.
pub struct SoundBinding<P> {
    pub event_id: SoundEventId,
    pub sound_event: SoundEvent<P>,
}

/// A voice fed one whole decoded buffer.
pub struct SoundSource<P> {
    pub current_binding: Option<SoundBinding<P>>,
}

/// Progress of the decoder feeding a streaming voice.
#[derive(PartialEq, Eq, Structural, Debug, Clone, Copy)]
pub struct StreamingState {
    /// Samples decoded so far.
    pub decoded_samples: u64,
    /// Chunks handed to the voice so far.
    pub queued_chunks: u64,
}

/// A voice fed a rolling window of decoded chunks.
pub struct StreamingSoundSource<P> {
    /// `Some` while the decoder is open.
    pub stream: Option<StreamingState>,
    pub current_binding: Option<SoundBinding<P>>,
}

/// The fixed set of voices, and the counter that event ids come from.
pub struct Sources<P> {
    pub next_event: SoundEventId,
    pub sources: Vec<SoundSource<P>>,
    pub streaming: Vec<StreamingSoundSource<P>>,
}

/// A voice slot, addressed by kind and index.
#[derive(PartialEq, Eq, Structural, Debug, Clone, Copy)]
pub enum CombinedSource {
    Static(usize),
    Streaming(usize),
}

/// Playback state of a voice as the audio device reports it.
#[derive(PartialEq, Eq, Structural, Debug, Clone, Copy)]
pub enum SourceState {
    Initial,
    Playing,
    Paused,
    Stopped,
}

/// The slot of the given kind and index.
pub open spec fn combined(streaming: bool, i: int) -> CombinedSource {
    if streaming {
        CombinedSource::Streaming(i as usize)
    } else {
        CombinedSource::Static(i as usize)
    }
}

impl CombinedSource {
    pub open spec fn is_streaming(self) -> bool {
        self is Streaming
    }

    pub open spec fn index(self) -> int {
        match self {
            CombinedSource::Static(i) => i as int,
            CombinedSource::Streaming(i) => i as int,
        }
    }
}

impl<P> Sources<P> {
    pub open spec fn slot_count(self, streaming: bool) -> int {
        if streaming {
            self.streaming@.len() as int
        } else {
            self.sources@.len() as int
        }
    }

    pub open spec fn has_slot(self, streaming: bool, i: int) -> bool {
        0 <= i < self.slot_count(streaming)
    }

    pub open spec fn binding_at(self, streaming: bool, i: int) -> Option<SoundBinding<P>> {
        if streaming {
            self.streaming@[i].current_binding
        } else {
            self.sources@[i].current_binding
        }
    }

    pub open spec fn is_bound(self, streaming: bool, i: int) -> bool {
        self.binding_at(streaming, i) is Some
    }

    pub open spec fn event_at(self, streaming: bool, i: int) -> SoundEventId {
        self.binding_at(streaming, i)->Some_0.event_id
    }

    /// Every slot of the kind is bound.
    pub open spec fn all_bound(self, streaming: bool) -> bool {
        forall|i: int| self.has_slot(streaming, i) ==> #[trigger] self.is_bound(streaming, i)
    }

    /// `i` is the first free slot of the kind.
    pub open spec fn first_free(self, streaming: bool, i: int) -> bool {
        &&& self.has_slot(streaming, i)
        &&& !self.is_bound(streaming, i)
        &&& forall|j: int| 0 <= j < i ==> #[trigger] self.is_bound(streaming, j)
    }

    /// Every slot of both kinds is free.
    pub open spec fn all_free(self) -> bool {
        &&& forall|i: int| 0 <= i < self.sources@.len() ==> #[trigger] self.sources@[i].current_binding is None
        &&& forall|i: int|
            0 <= i < self.streaming@.len() ==> {
                &&& (#[trigger] self.streaming@[i]).current_binding is None
                &&& self.streaming@[i].stream is None
            }
    }

    /// The loan addresses an existing slot that is still bound to its event.
    pub open spec fn loan_valid(self, loan: SoundSourceLoan) -> bool {
        &&& self.has_slot(loan.streaming, loan.source_id as int)
        &&& self.is_bound(loan.streaming, loan.source_id as int)
        &&& self.event_at(loan.streaming, loan.source_id as int) == loan.event_id
    }

    /// No bound event id is ahead of the counter, and no two slots share one.
    pub open spec fn wf(self) -> bool {
        &&& forall|s: bool, i: int|
            self.has_slot(s, i) && #[trigger] self.is_bound(s, i) ==> self.event_at(s, i)
                <= self.next_event
        &&& forall|s: bool, i: int, t: bool, j: int|
            self.has_slot(s, i) && self.has_slot(t, j) && #[trigger] self.is_bound(s, i)
                && #[trigger] self.is_bound(t, j) && (s != t || i != j) ==> self.event_at(s, i)
                != self.event_at(t, j)
    }

    /// The busy slots of the kind among the first `n`, in index order.
    pub open spec fn busy_prefix(self, streaming: bool, n: int) -> Seq<CombinedSource>
        decreases n,
    {
        if n <= 0 {
            Seq::empty()
        } else if self.is_bound(streaming, n - 1) {
            self.busy_prefix(streaming, n - 1).push(combined(streaming, n - 1))
        } else {
            self.busy_prefix(streaming, n - 1)
        }
    }

    /// The number of free slots of the kind among the first `n`.
    pub open spec fn free_prefix(self, streaming: bool, n: int) -> int
        decreases n,
    {
        if n <= 0 {
            0
        } else if self.is_bound(streaming, n - 1) {
            self.free_prefix(streaming, n - 1)
        } else {
            self.free_prefix(streaming, n - 1) + 1
        }
    }

    /// `after` is this pool once a fresh id was drawn and, unless every slot
    /// of the kind was busy, the first free one was bound to `sound_event`
    /// under that id, as `loan` records; a streaming slot gets a fresh stream.
    pub open spec fn lent(
        self,
        after: Self,
        streaming: bool,
        sound_event: SoundEvent<P>,
        loan: Option<SoundSourceLoan>,
    ) -> bool {
        &&& after.wf()
        &&& after.next_event == self.next_event + 1
        &&& self.keeps_bindings(after)
        &&& forall|s: bool, i: int|
            self.has_slot(s, i) && !(loan matches Some(l) && s == streaming && i == l.source_id)
                ==> #[trigger] after.binding_at(s, i) == self.binding_at(s, i)
        &&& (loan is None <==> self.all_bound(streaming))
        &&& loan is None ==> after.sources == self.sources && after.streaming == self.streaming
        &&& loan matches Some(l) ==> {
            &&& l.streaming == streaming
            &&& l.event_id == after.next_event
            &&& self.first_free(streaming, l.source_id as int)
            &&& after.loan_valid(l)
            &&& if streaming {
                &&& after.sources == self.sources
                &&& after.streaming@ == self.streaming@.update(
                    l.source_id as int,
                    StreamingSoundSource {
                        stream: Some(StreamingState { decoded_samples: 0, queued_chunks: 0 }),
                        current_binding: Some(SoundBinding { event_id: l.event_id, sound_event }),
                    },
                )
            } else {
                &&& after.streaming == self.streaming
                &&& after.sources@ == self.sources@.update(
                    l.source_id as int,
                    SoundSource {
                        current_binding: Some(SoundBinding { event_id: l.event_id, sound_event }),
                    },
                )
            }
        }
    }

    /// Every slot bound in this pool is bound in `after` under the same id,
    /// with the same slots: a move that places or refreshes but frees nothing.
    pub open spec fn keeps_bindings(self, after: Self) -> bool {
        &&& after.slot_count(false) == self.slot_count(false)
        &&& after.slot_count(true) == self.slot_count(true)
        &&& forall|s: bool, i: int|
            self.has_slot(s, i) && #[trigger] self.is_bound(s, i) ==> after.is_bound(s, i)
                && after.event_at(s, i) == self.event_at(s, i)
    }

    /// The slots are the same, and every slot keeps its binding but the one
    /// of the loan `r` hands out, if any.
    pub open spec fn changes_only<E>(self, after: Self, r: Result<SoundSourceLoan, E>) -> bool {
        &&& after.slot_count(false) == self.slot_count(false)
        &&& after.slot_count(true) == self.slot_count(true)
        &&& forall|s: bool, i: int|
            self.has_slot(s, i) && !(r matches Ok(l) && s == l.streaming && i == l.source_id)
                ==> #[trigger] after.binding_at(s, i) == self.binding_at(s, i)
    }

    /// A kind whose slots are all bound stays so through a move that keeps
    /// bindings.
    pub proof fn lemma_kept_bindings_keep_full(self, after: Self, streaming: bool)
        requires
            self.keeps_bindings(after),
            self.all_bound(streaming),
        ensures
            after.all_bound(streaming),
    {
        assert forall|i: int| after.has_slot(streaming, i) implies #[trigger] after.is_bound(streaming, i) by {
            assert(self.is_bound(streaming, i));
        }
    }

    /// Every loan honoured before a move that keeps bindings is honoured after it.
    pub proof fn lemma_kept_bindings_keep_loans(self, after: Self, loan: SoundSourceLoan)
        requires
            self.keeps_bindings(after),
            self.loan_valid(loan),
        ensures
            after.loan_valid(loan),
    {
        assert(self.is_bound(loan.streaming, loan.source_id as int));
    }

    /// A fresh event id: the counter advanced by one.
    pub fn next_event_id(&mut self) -> (r: SoundEventId)
        requires
            old(self).next_event < u64::MAX,
        ensures
            final(self).next_event == old(self).next_event + 1,
            r == final(self).next_event,
            final(self).sources == old(self).sources,
            final(self).streaming == old(self).streaming,
    {
        self.next_event = self.next_event + 1;
        self.next_event
    }

    /// The first static slot without a binding.
    pub fn next_free_static_idx(&self) -> (r: Option<usize>)
        ensures
            r is None <==> self.all_bound(false),
            r matches Some(i) ==> self.first_free(false, i as int),
    {
        let len = self.sources.len();
        let mut i: usize = 0;
        while i < len
            invariant
                len == self.sources@.len(),
                i <= len,
                forall|j: int| 0 <= j < i ==> #[trigger] self.is_bound(false, j),
            decreases len - i,
        {
            if self.sources[i].current_binding.is_none() {
                assert(!self.is_bound(false, i as int));
                return Some(i);
            }
            i = i + 1;
        }
        None
    }

    /// The first streaming slot without a binding.
    fn next_free_streaming_idx(&self) -> (r: Option<usize>)
        ensures
            r is None <==> self.all_bound(true),
            r matches Some(i) ==> self.first_free(true, i as int),
    {
        let len = self.streaming.len();
        let mut i: usize = 0;
        while i < len
            invariant
                len == self.streaming@.len(),
                i <= len,
                forall|j: int| 0 <= j < i ==> #[trigger] self.is_bound(true, j),
            decreases len - i,
        {
            if self.streaming[i].current_binding.is_none() {
                assert(!self.is_bound(true, i as int));
                return Some(i);
            }
            i = i + 1;
        }
        None
    }

    /// Draws a fresh event id and binds `sound_event` under it to the first
    /// free static slot. `None` when every static slot is busy; the id is
    /// spent either way.
    pub fn loan_next_free_static(&mut self, sound_event: SoundEvent<P>) -> (r: Option<
        SoundSourceLoan,
    >)
        requires
            old(self).wf(),
            old(self).next_event < u64::MAX,
        ensures
            old(self).lent(*final(self), false, sound_event, r),
    {
        let event_id = self.next_event_id();
        proof {
            self.lemma_same_slots(*old(self));
        }
        match self.next_free_static_idx() {
            Some(idx) => {
                self.sources[idx].assign_event(sound_event, event_id);
                let loan = SoundSourceLoan { source_id: idx, event_id, streaming: false };
                proof {
                    self.lemma_fresh_binding_keeps_wf(*old(self), false, idx as int);
                }
                Some(loan)
            },
            None => None,
        }
    }

    /// Draws a fresh event id and binds `sound_event` under it to the first
    /// free streaming slot, with a freshly opened stream. `None` when every
    /// streaming slot is busy; the id is spent either way.
    pub fn loan_next_free_streaming(&mut self, sound_event: SoundEvent<P>) -> (r: Option<
        SoundSourceLoan,
    >)
        requires
            old(self).wf(),
            old(self).next_event < u64::MAX,
        ensures
            old(self).lent(*final(self), true, sound_event, r),
    {
        let event_id = self.next_event_id();
        proof {
            self.lemma_same_slots(*old(self));
        }
        match self.next_free_streaming_idx() {
            Some(idx) => {
                self.streaming[idx] = StreamingSoundSource {
                    stream: Some(StreamingState { decoded_samples: 0, queued_chunks: 0 }),
                    current_binding: Some(SoundBinding { event_id, sound_event }),
                };
                let loan = SoundSourceLoan { source_id: idx, event_id, streaming: true };
                proof {
                    self.lemma_fresh_binding_keeps_wf(*old(self), true, idx as int);
                }
                Some(loan)
            },
            None => None,
        }
    }

    /// Two pools with the same slots agree on every slot question, and the
    /// one with the later counter is well formed if the other is.
    proof fn lemma_same_slots(self, other: Self)
        requires
            self.sources == other.sources,
            self.streaming == other.streaming,
        ensures
            forall|s: bool, i: int| #[trigger] self.binding_at(s, i) == other.binding_at(s, i),
            forall|s: bool| #[trigger] self.all_bound(s) == other.all_bound(s),
            forall|s: bool, i: int| #[trigger] self.first_free(s, i) == other.first_free(s, i),
            other.wf() && other.next_event <= self.next_event ==> self.wf(),
    {
        assert forall|s: bool| #[trigger] self.all_bound(s) == other.all_bound(s) by {
            if self.all_bound(s) {
                assert forall|i: int| other.has_slot(s, i) implies #[trigger] other.is_bound(s, i) by {
                    assert(self.is_bound(s, i));
                }
            }
            if other.all_bound(s) {
                assert forall|i: int| self.has_slot(s, i) implies #[trigger] self.is_bound(s, i) by {
                    assert(other.is_bound(s, i));
                }
            }
        }
        assert forall|s: bool, i: int| #[trigger] self.first_free(s, i) == other.first_free(s, i) by {
            if self.first_free(s, i) {
                assert forall|j: int| 0 <= j < i implies #[trigger] other.is_bound(s, j) by {
                    assert(self.is_bound(s, j));
                }
            }
            if other.first_free(s, i) {
                assert forall|j: int| 0 <= j < i implies #[trigger] self.is_bound(s, j) by {
                    assert(other.is_bound(s, j));
                }
            }
        }
        if other.wf() && other.next_event <= self.next_event {
            assert forall|s: bool, i: int|
                self.has_slot(s, i) && #[trigger] self.is_bound(s, i) implies self.event_at(s, i)
                <= self.next_event by {
                assert(other.is_bound(s, i));
            }
            assert forall|s: bool, i: int, t: bool, j: int|
                self.has_slot(s, i) && self.has_slot(t, j) && #[trigger] self.is_bound(s, i)
                    && #[trigger] self.is_bound(t, j) && (s != t || i != j) implies self.event_at(
                s,
                i,
            ) != self.event_at(t, j) by {
                assert(other.is_bound(s, i));
                assert(other.is_bound(t, j));
            }
        }
    }

    /// A pool whose bound slots are all bound alike in a well-formed pool,
    /// with a counter no smaller, is well formed.
    pub(crate) proof fn lemma_fewer_bindings_keeps_wf(self, before: Self)
        requires
            before.wf(),
            before.next_event <= self.next_event,
            forall|s: bool, i: int|
                self.has_slot(s, i) && #[trigger] self.is_bound(s, i) ==> before.has_slot(s, i)
                    && before.is_bound(s, i) && self.event_at(s, i) == before.event_at(s, i),
        ensures
            self.wf(),
    {
        assert forall|s: bool, i: int|
            self.has_slot(s, i) && #[trigger] self.is_bound(s, i) implies self.event_at(s, i)
            <= self.next_event by {
            assert(before.is_bound(s, i));
        }
        assert forall|s: bool, i: int, t: bool, j: int|
            self.has_slot(s, i) && self.has_slot(t, j) && #[trigger] self.is_bound(s, i)
                && #[trigger] self.is_bound(t, j) && (s != t || i != j) implies self.event_at(s, i)
            != self.event_at(t, j) by {
            assert(before.is_bound(s, i));
            assert(before.is_bound(t, j));
        }
    }

    /// Binding a free slot to an id beyond every earlier one keeps the pool
    /// well formed.
    proof fn lemma_fresh_binding_keeps_wf(self, before: Self, streaming: bool, idx: int)
        requires
            before.wf(),
            self.next_event == before.next_event + 1,
            before.has_slot(streaming, idx),
            self.slot_count(false) == before.slot_count(false),
            self.slot_count(true) == before.slot_count(true),
            self.is_bound(streaming, idx),
            self.event_at(streaming, idx) == self.next_event,
            forall|s: bool, i: int|
                before.has_slot(s, i) && (s != streaming || i != idx) ==> #[trigger] self.binding_at(
                    s,
                    i,
                ) == before.binding_at(s, i),
        ensures
            self.wf(),
    {
        assert forall|s: bool, i: int|
            self.has_slot(s, i) && #[trigger] self.is_bound(s, i) implies self.event_at(s, i)
            <= self.next_event by {
            if s != streaming || i != idx {
                assert(self.binding_at(s, i) == before.binding_at(s, i));
                assert(before.is_bound(s, i));
            }
        }
        assert forall|s: bool, i: int, t: bool, j: int|
            self.has_slot(s, i) && self.has_slot(t, j) && #[trigger] self.is_bound(s, i)
                && #[trigger] self.is_bound(t, j) && (s != t || i != j) implies self.event_at(s, i)
            != self.event_at(t, j) by {
            assert(self.binding_at(s, i) == before.binding_at(s, i) || (s == streaming && i
                == idx));
            assert(self.binding_at(t, j) == before.binding_at(t, j) || (t == streaming && j
                == idx));
            if s != streaming || i != idx {
                assert(before.is_bound(s, i));
            }
            if t != streaming || j != idx {
                assert(before.is_bound(t, j));
            }
        }
    }

    /// The slot a loan addresses, provided the slot is still bound to the
    /// loan's event; a loan whose slot has since been freed or handed to
    /// another event gets `None`.
    pub fn for_loan(&self, loan: SoundSourceLoan) -> (r: Option<CombinedSource>)
        ensures
            r is Some <==> self.loan_valid(loan),
            r matches Some(c) ==> c == combined(loan.streaming, loan.source_id as int),
    {
        if loan.streaming {
            if loan.source_id < self.streaming.len() {
                match &self.streaming[loan.source_id].current_binding {
                    Some(b) => {
                        if b.event_id == loan.event_id {
                            return Some(CombinedSource::Streaming(loan.source_id));
                        }
                    },
                    None => {},
                }
            }
        } else {
            if loan.source_id < self.sources.len() {
                match &self.sources[loan.source_id].current_binding {
                    Some(b) => {
                        if b.event_id == loan.event_id {
                            return Some(CombinedSource::Static(loan.source_id));
                        }
                    },
                    None => {},
                }
            }
        }
        None
    }
}

impl<P> Sources<P> {
    /// Whether `clean` frees slot `i` of the kind: it is busy and the device
    /// reports its voice stopped.
    pub open spec fn released(self, streaming: bool, i: int, states: Seq<SourceState>) -> bool {
        &&& self.is_bound(streaming, i)
        &&& 0 <= i < states.len()
        &&& states[i] == SourceState::Stopped
    }

    /// Free and busy counts and busy lists over a prefix depend on that
    /// prefix alone.
    proof fn lemma_prefix_agree(self, other: Self, streaming: bool, n: int)
        requires
            forall|j: int| 0 <= j < n ==> #[trigger] self.binding_at(streaming, j) == other.binding_at(streaming, j),
        ensures
            self.free_prefix(streaming, n) == other.free_prefix(streaming, n),
            self.busy_prefix(streaming, n) == other.busy_prefix(streaming, n),
            0 <= self.free_prefix(streaming, n) <= if n < 0 { 0 } else { n },
        decreases n,
    {
        if n > 0 {
            assert(self.binding_at(streaming, n - 1) == other.binding_at(streaming, n - 1));
            self.lemma_prefix_agree(other, streaming, n - 1);
        }
    }

    /// Frees every busy slot and closes every stream. Returns the slots that
    /// were busy, static ones first, each kind in index order, so that their
    /// voices can be stopped.
    pub fn purge(&mut self) -> (r: Vec<CombinedSource>)
        ensures
            final(self).all_free(),
            final(self).wf(),
            final(self).next_event == old(self).next_event,
            final(self).sources@.len() == old(self).sources@.len(),
            final(self).streaming@.len() == old(self).streaming@.len(),
            r@ == old(self).busy_prefix(false, old(self).sources@.len() as int) + old(self).busy_prefix(true, old(self).streaming@.len() as int),
    {
        let ghost before = *self;
        let mut busy: Vec<CombinedSource> = Vec::new();
        let len = self.sources.len();
        let mut i: usize = 0;
        while i < len
            invariant
                len == self.sources@.len() == before.sources@.len(),
                i <= len,
                self.streaming == before.streaming,
                self.next_event == before.next_event,
                forall|j: int| 0 <= j < i ==> (#[trigger] self.sources@[j]).current_binding is None,
                forall|j: int| i <= j < len ==> #[trigger] self.sources@[j] == before.sources@[j],
                busy@ == before.busy_prefix(false, i as int),
            decreases len - i,
        {
            if self.sources[i].current_binding.is_some() {
                busy.push(CombinedSource::Static(i));
                self.sources[i].clean();
            }
            i = i + 1;
        }
        let ghost mid_busy = busy@;
        let slen = self.streaming.len();
        let mut k: usize = 0;
        while k < slen
            invariant
                slen == self.streaming@.len() == before.streaming@.len(),
                k <= slen,
                self.sources@.len() == len,
                forall|j: int| 0 <= j < len ==> (#[trigger] self.sources@[j]).current_binding is None,
                self.next_event == before.next_event,
                forall|j: int|
                    0 <= j < k ==> {
                        &&& (#[trigger] self.streaming@[j]).current_binding is None
                        &&& self.streaming@[j].stream is None
                    },
                forall|j: int| k <= j < slen ==> #[trigger] self.streaming@[j] == before.streaming@[j],
                mid_busy == before.busy_prefix(false, len as int),
                busy@ == mid_busy + before.busy_prefix(true, k as int),
            decreases slen - k,
        {
            if self.streaming[k].current_binding.is_some() {
                busy.push(CombinedSource::Streaming(k));
                assert(busy@ == mid_busy + before.busy_prefix(true, k + 1));
            }
            self.streaming[k].clean();
            k = k + 1;
        }
        busy
    }

    /// Frees each busy slot whose voice the device reports stopped, so that
    /// sounds that end on their own give their voice back. `static_states[i]`
    /// and `streaming_states[i]` are the reported states of the slots of index
    /// `i`; a slot without a reported state is left as it is. Returns how many
    /// static and how many streaming slots are free afterwards.
    pub fn clean(&mut self, static_states: &Vec<SourceState>, streaming_states: &Vec<SourceState>) -> (r: (u32, u32))
        requires
            old(self).wf(),
            old(self).sources@.len() <= u32::MAX,
            old(self).streaming@.len() <= u32::MAX,
        ensures
            final(self).wf(),
            final(self).next_event == old(self).next_event,
            final(self).sources@.len() == old(self).sources@.len(),
            final(self).streaming@.len() == old(self).streaming@.len(),
            forall|i: int|
                0 <= i < old(self).sources@.len() ==> (#[trigger] final(self).sources@[i]).current_binding
                    == if old(self).released(false, i, static_states@) {
                    None
                } else {
                    old(self).sources@[i].current_binding
                },
            forall|i: int|
                0 <= i < old(self).streaming@.len() ==> #[trigger] final(self).streaming@[i] == if old(self).released(true, i, streaming_states@) {
                    StreamingSoundSource { stream: None, current_binding: None }
                } else {
                    old(self).streaming@[i]
                },
            r.0 == final(self).free_prefix(false, final(self).sources@.len() as int),
            r.1 == final(self).free_prefix(true, final(self).streaming@.len() as int),
    {
        let ghost before = *self;
        let len = self.sources.len();
        let mut available: u32 = 0;
        let mut i: usize = 0;
        while i < len
            invariant
                len == self.sources@.len() == before.sources@.len(),
                len <= u32::MAX,
                i <= len,
                self.streaming == before.streaming,
                self.next_event == before.next_event,
                forall|j: int|
                    0 <= j < i ==> (#[trigger] self.sources@[j]).current_binding == if before.released(
                        false,
                        j,
                        static_states@,
                    ) {
                        None
                    } else {
                        before.sources@[j].current_binding
                    },
                forall|j: int| i <= j < len ==> #[trigger] self.sources@[j] == before.sources@[j],
                available == self.free_prefix(false, i as int),
            decreases len - i,
        {
            let ghost prev = *self;
            if self.sources[i].current_binding.is_some() {
                if i < static_states.len() && static_states[i] == SourceState::Stopped {
                    self.sources[i].clean();
                }
            }
            proof {
                self.lemma_prefix_agree(prev, false, i as int);
                self.lemma_prefix_agree(*self, false, i + 1);
                assert(self.free_prefix(false, i + 1) <= i + 1);
            }
            if self.sources[i].current_binding.is_none() {
                available = available + 1;
            }
            i = i + 1;
        }
        let ghost mid = *self;
        let slen = self.streaming.len();
        let mut available_streaming: u32 = 0;
        let mut k: usize = 0;
        while k < slen
            invariant
                slen == self.streaming@.len() == before.streaming@.len(),
                slen <= u32::MAX,
                k <= slen,
                self.sources == mid.sources,
                self.next_event == before.next_event,
                forall|j: int|
                    0 <= j < k ==> #[trigger] self.streaming@[j] == if before.released(
                        true,
                        j,
                        streaming_states@,
                    ) {
                        StreamingSoundSource { stream: None, current_binding: None }
                    } else {
                        before.streaming@[j]
                    },
                forall|j: int| k <= j < slen ==> #[trigger] self.streaming@[j] == before.streaming@[j],
                available_streaming == self.free_prefix(true, k as int),
            decreases slen - k,
        {
            let ghost prev = *self;
            if self.streaming[k].current_binding.is_some() {
                if k < streaming_states.len() && streaming_states[k] == SourceState::Stopped {
                    self.streaming[k].clean();
                }
            }
            proof {
                self.lemma_prefix_agree(prev, true, k as int);
                self.lemma_prefix_agree(*self, true, k + 1);
                assert(self.free_prefix(true, k + 1) <= k + 1);
            }
            if self.streaming[k].current_binding.is_none() {
                available_streaming = available_streaming + 1;
            }
            k = k + 1;
        }
        proof {
            self.lemma_prefix_agree(mid, false, len as int);
            assert forall|s: bool, i: int| self.has_slot(s, i) && #[trigger] self.is_bound(s, i)
                implies before.is_bound(s, i) && self.event_at(s, i) == before.event_at(s, i) by {
                if s {
                    assert(self.streaming@[i] == before.streaming@[i]);
                } else {
                    assert(self.sources@[i] == mid.sources@[i]);
                }
            }
        }
        (available, available_streaming)
    }
}

impl CombinedSource {
    /// Records `sound_event` under `event_id` as the occupant of this slot,
    /// leaving every other slot, the counter and the slot's stream as they are.
    pub fn assign_event<P>(&self, sources: &mut Sources<P>, sound_event: SoundEvent<P>, event_id: SoundEventId)
        requires
            old(sources).has_slot(self.is_streaming(), self.index()),
        ensures
            final(sources).next_event == old(sources).next_event,
            match *self {
                CombinedSource::Static(i) => {
                    &&& final(sources).sources@ == old(sources).sources@.update(
                        i as int,
                        SoundSource { current_binding: Some(SoundBinding { event_id, sound_event }) },
                    )
                    &&& final(sources).streaming == old(sources).streaming
                },
                CombinedSource::Streaming(i) => {
                    &&& final(sources).streaming@ == old(sources).streaming@.update(
                        i as int,
                        StreamingSoundSource {
                            stream: old(sources).streaming@[i as int].stream,
                            current_binding: Some(SoundBinding { event_id, sound_event }),
                        },
                    )
                    &&& final(sources).sources == old(sources).sources
                },
            },
    {
        match *self {
            CombinedSource::Static(i) => {
                sources.sources[i].assign_event(sound_event, event_id);
            },
            CombinedSource::Streaming(i) => {
                sources.streaming[i].assign_event(sound_event, event_id);
            },
        }
    }

    /// Frees this slot, closing its stream if it has one; every other slot
    /// and the counter stay as they are.
    pub fn stop<P>(&self, sources: &mut Sources<P>)
        requires
            old(sources).has_slot(self.is_streaming(), self.index()),
        ensures
            final(sources).next_event == old(sources).next_event,
            match *self {
                CombinedSource::Static(i) => {
                    &&& final(sources).sources@ == old(sources).sources@.update(
                        i as int,
                        SoundSource { current_binding: None },
                    )
                    &&& final(sources).streaming == old(sources).streaming
                },
                CombinedSource::Streaming(i) => {
                    &&& final(sources).streaming@ == old(sources).streaming@.update(
                        i as int,
                        StreamingSoundSource { stream: None, current_binding: None },
                    )
                    &&& final(sources).sources == old(sources).sources
                },
            },
    {
        match *self {
            CombinedSource::Static(i) => {
                sources.sources[i].clean();
            },
            CombinedSource::Streaming(i) => {
                sources.streaming[i].clean();
            },
        }
    }
}

/// A loan dies once its slot is handed to a later event: ids only grow, so
/// the slot's new occupant never carries the id the loan was issued for, and
/// the loan is rejected even though it still names the slot.
pub proof fn lemma_stale_loan_rejected<P>(issued: Sources<P>, later: Sources<P>, loan: SoundSourceLoan)
    requires
        issued.wf(),
        issued.loan_valid(loan),
        later.has_slot(loan.streaming, loan.source_id as int),
        later.is_bound(loan.streaming, loan.source_id as int),
        later.event_at(loan.streaming, loan.source_id as int) > issued.next_event,
    ensures
        !later.loan_valid(loan),
{
}

/// A fresh loan never lands on a busy slot: the slot it names was free
/// before, and afterwards it holds exactly one binding, under an id that no
/// other slot carries.
pub proof fn lemma_loan_takes_free_slot<P>(
    before: Sources<P>,
    after: Sources<P>,
    streaming: bool,
    sound_event: SoundEvent<P>,
    loan: SoundSourceLoan,
)
    requires
        before.lent(after, streaming, sound_event, Some(loan)),
    ensures
        !before.is_bound(streaming, loan.source_id as int),
        after.loan_valid(loan),
        forall|s: bool, i: int|
            after.has_slot(s, i) && #[trigger] after.is_bound(s, i) && (s != streaming || i
                != loan.source_id) ==> after.event_at(s, i) != loan.event_id,
{
    assert forall|s: bool, i: int|
        after.has_slot(s, i) && #[trigger] after.is_bound(s, i) && (s != streaming || i
            != loan.source_id) implies after.event_at(s, i) != loan.event_id by {
        assert(after.is_bound(streaming, loan.source_id as int));
    }
}

impl<P> SoundSource<P> {
    /// Records `sound_event` as this voice's occupant under `event_id`.
    pub fn assign_event(&mut self, sound_event: SoundEvent<P>, event_id: SoundEventId)
        ensures
            final(self).current_binding == Some(SoundBinding { event_id, sound_event }),
    {
        self.current_binding = Some(SoundBinding { event_id, sound_event });
    }

    /// Frees this voice.
    pub fn clean(&mut self)
        ensures
            final(self).current_binding is None,
    {
        self.current_binding = None;
    }
}

impl<P> StreamingSoundSource<P> {
    /// Records `sound_event` as this voice's occupant under `event_id`; the
    /// stream is left as it is.
    pub fn assign_event(&mut self, sound_event: SoundEvent<P>, event_id: SoundEventId)
        ensures
            final(self).current_binding == Some(SoundBinding { event_id, sound_event }),
            final(self).stream == old(self).stream,
    {
        self.current_binding = Some(SoundBinding { event_id, sound_event });
    }

    /// Frees this voice and closes its stream.
    pub fn clean(&mut self)
        ensures
            final(self).current_binding is None,
            final(self).stream is None,
    {
        self.stream = None;
        self.current_binding = None;
    }
}

} // verus!
