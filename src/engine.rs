use vstd::prelude::*;

use crate::audio::{SoundEvent, SoundName};
use crate::context::{playable_channels, SoundAction, SoundContext, SoundFile};
use crate::load::ogg_decoded;
use crate::error::JamError;
use crate::source::{SoundBinding, SoundSourceLoan, Sources, SourceState, StreamingSoundSource};

verus! {

/// One tick's instruction to the engine.
pub enum SoundEngineUpdate<P> {
    /// Decode and cache these sounds now, ahead of their first use.
    Preload(Vec<SoundName>),
    /// Play `sounds` once each, fire and forget, and keep each of
    /// `persistent_sounds` playing under its name across ticks.
    Render { sounds: Vec<SoundEvent<P>>, persistent_sounds: Vec<(SoundName, SoundEvent<P>)> },
    /// Free every voice and drop every cached sound.
    Clear,
}

/// Playback states of the voices, as the device reports them, by slot index.
pub struct VoiceStates {
    pub static_states: Vec<SourceState>,
    pub streaming_states: Vec<SourceState>,
}

/// The per-tick driver: remembers the loan of each persistent sound between
/// ticks.
pub struct SoundEngine {
    /// Clock reading, in nanoseconds, when the engine was made.
    pub last_render_time: u64,
    /// At most one loan per persistent sound name.
    pub loans: Vec<(SoundName, SoundSourceLoan)>,
}

/// Relies on `time::precise_time_ns`: a reading of a high-resolution clock.
/// Nothing is known of its value.
#[verifier::external_body]
fn precise_time_ns() -> u64 {
    time::precise_time_ns()
}

/// The table holds `loan` under `name`.
pub open spec fn holds(loans: Seq<(SoundName, SoundSourceLoan)>, name: Seq<char>, loan: SoundSourceLoan) -> bool {
    exists|i: int| 0 <= i < loans.len() && loans[i].0@ == name && loans[i].1 == loan
}

/// No name holds two loans, and no two loans share an event id.
pub open spec fn table_wf(loans: Seq<(SoundName, SoundSourceLoan)>) -> bool {
    forall|i: int, j: int|
        0 <= i < loans.len() && 0 <= j < loans.len() && i != j ==> #[trigger] loans[i].0@
            != #[trigger] loans[j].0@ && loans[i].1.event_id != loans[j].1.event_id
}

/// In a well-formed table a name holds one loan, and loans under two names
/// have different ids.
proof fn lemma_holds_unique(
    loans: Seq<(SoundName, SoundSourceLoan)>,
    n1: Seq<char>,
    l1: SoundSourceLoan,
    n2: Seq<char>,
    l2: SoundSourceLoan,
)
    requires
        table_wf(loans),
        holds(loans, n1, l1),
        holds(loans, n2, l2),
    ensures
        n1 == n2 ==> l1 == l2,
        n1 != n2 ==> l1.event_id != l2.event_id,
{
    let a = choose|a: int| 0 <= a < loans.len() && loans[a].0@ == n1 && loans[a].1 == l1;
    let b = choose|b: int| 0 <= b < loans.len() && loans[b].0@ == n2 && loans[b].1 == l2;
    if a != b {
        assert(loans[a].0@ != loans[b].0@);
    }
}

/// `name` is one of the persistent sounds of this tick.
pub open spec fn rendered<P>(persistent: Seq<(SoundName, SoundEvent<P>)>, name: Seq<char>) -> bool {
    exists|k: int| 0 <= k < persistent.len() && persistent[k].0@ == name
}

/// No two persistent sounds of this tick share a name.
pub open spec fn distinct_names<P>(persistent: Seq<(SoundName, SoundEvent<P>)>) -> bool {
    forall|i: int, j: int|
        0 <= i < persistent.len() && 0 <= j < persistent.len() && i != j ==> (#[trigger] persistent[i]).0@
            != (#[trigger] persistent[j]).0@
}

/// `name` is requested somewhere in `update`.
pub open spec fn named<P>(update: SoundEngineUpdate<P>, name: Seq<char>) -> bool {
    match update {
        SoundEngineUpdate::Preload(names) => exists|k: int| 0 <= k < names@.len() && names@[k]@ == name,
        SoundEngineUpdate::Render { sounds, persistent_sounds } => {
            ||| exists|k: int| 0 <= k < sounds@.len() && sounds@[k].name@ == name
            ||| exists|k: int| 0 <= k < persistent_sounds@.len() && persistent_sounds@[k].1.name@ == name
        },
        SoundEngineUpdate::Clear => false,
    }
}

/// The first file entry under `name`, if any.
pub open spec fn file_index(files: Seq<(SoundName, SoundFile)>, name: Seq<char>, i: int) -> bool {
    &&& 0 <= i < files.len()
    &&& files[i].0@ == name
    &&& forall|j: int| 0 <= j < i ==> (#[trigger] files[j]).0@ != name
}

/// The file known under `name`: that of the first entry with that name.
pub open spec fn first_file(files: Seq<(SoundName, SoundFile)>, name: Seq<char>) -> Option<SoundFile> {
    if exists|i: int| file_index(files, name, i) {
        Some(files[choose|i: int| file_index(files, name, i)].1)
    } else {
        None
    }
}

/// The file known under `name`: the first entry of `files` with that name.
pub fn file_for<'a>(files: &'a Vec<(SoundName, SoundFile)>, name: &String) -> (r: Option<&'a SoundFile>)
    ensures
        r is None <==> forall|i: int| 0 <= i < files@.len() ==> (#[trigger] files@[i]).0@ != name@,
        r matches Some(f) ==> exists|i: int| file_index(files@, name@, i) && *f == files@[i].1,
        r matches Some(f) ==> first_file(files@, name@) == Some(*f),
        r is None ==> first_file(files@, name@) is None,
{
    let mut i: usize = 0;
    while i < files.len()
        invariant
            i <= files@.len(),
            forall|j: int| 0 <= j < i ==> (#[trigger] files@[j]).0@ != name@,
        decreases files@.len() - i,
    {
        if files[i].0 == *name {
            assert(file_index(files@, name@, i as int));
            let ghost c = choose|c: int| file_index(files@, name@, c);
            assert(c == i) by {
                if c < i {
                    assert(files@[c].0@ != name@);
                } else if c > i {
                    assert(files@[i as int].0@ != name@);
                }
            }
            return Some(&files[i].1);
        }
        i = i + 1;
    }
    None
}

impl SoundEngine {
    /// No name holds two loans, and no two loans share an event id.
    pub open spec fn wf(self) -> bool {
        table_wf(self.loans@)
    }

    /// An engine remembering no loans.
    pub fn new() -> (r: SoundEngine)
        ensures
            r.wf(),
            r.loans@.len() == 0,
    {
        SoundEngine { last_render_time: precise_time_ns(), loans: Vec::new() }
    }

    /// Removes and returns the loan remembered under `name`.
    fn take_loan(&mut self, name: &String) -> (r: Option<SoundSourceLoan>)
        requires
            old(self).wf(),
        ensures
            final(self).wf(),
            forall|n: Seq<char>, l: SoundSourceLoan|
                #[trigger] holds(final(self).loans@, n, l) <==> holds(old(self).loans@, n, l) && n != name@,
            r matches Some(l) ==> holds(old(self).loans@, name@, l),
            r is None ==> forall|l: SoundSourceLoan| !#[trigger] holds(old(self).loans@, name@, l),
    {
        let mut i: usize = 0;
        while i < self.loans.len()
            invariant
                i <= self.loans@.len(),
                self.loans == old(self).loans,
                old(self).wf(),
                forall|j: int| 0 <= j < i ==> (#[trigger] self.loans@[j]).0@ != name@,
            decreases self.loans@.len() - i,
        {
            if self.loans[i].0 == *name {
                let ghost before = self.loans@;
                let (_, l) = self.loans.remove(i);
                proof {
                    assert(before == old(self).loans@);
                    assert(before.len() == self.loans@.len() + 1);
                    assert forall|a: int, b: int|
                        0 <= a < before.len() && 0 <= b < before.len() && a != b implies before[a].0@
                        != before[b].0@ && before[a].1.event_id != before[b].1.event_id by {
                        assert(old(self).loans@[a].0@ != old(self).loans@[b].0@);
                    }
                    assert forall|n: Seq<char>, m: SoundSourceLoan|
                        #[trigger] holds(self.loans@, n, m) <==> holds(before, n, m) && n != name@ by {
                        if holds(self.loans@, n, m) {
                            let k = choose|k: int| 0 <= k < self.loans@.len() && self.loans@[k].0@ == n && self.loans@[k].1 == m;
                            if k < i {
                                assert(before[k] == self.loans@[k]);
                            } else {
                                assert(before[k + 1] == self.loans@[k]);
                                assert(before[i as int].0@ != before[k + 1].0@);
                            }
                        }
                        if holds(before, n, m) && n != name@ {
                            let k = choose|k: int| 0 <= k < before.len() && before[k].0@ == n && before[k].1 == m;
                            if k < i {
                                assert(self.loans@[k] == before[k]);
                            } else {
                                assert(k != i);
                                assert(self.loans@[k - 1] == before[k]);
                            }
                        }
                    }
                    assert(before[i as int].0@ == name@ && before[i as int].1 == l);
                    assert forall|a: int, b: int|
                        0 <= a < self.loans@.len() && 0 <= b < self.loans@.len() && a != b
                            implies #[trigger] self.loans@[a].0@ != #[trigger] self.loans@[b].0@
                            && self.loans@[a].1.event_id != self.loans@[b].1.event_id by {
                        let a2 = if a < i { a } else { a + 1 };
                        let b2 = if b < i { b } else { b + 1 };
                        assert(self.loans@[a] == before[a2]);
                        assert(self.loans@[b] == before[b2]);
                    }
                }
                return Some(l);
            }
            i = i + 1;
        }
        None
    }

    /// Remembers `loan` under `name`, which holds no loan.
    fn store_loan(&mut self, name: SoundName, loan: SoundSourceLoan)
        requires
            old(self).wf(),
            forall|l: SoundSourceLoan| !#[trigger] holds(old(self).loans@, name@, l),
            forall|n: Seq<char>, l: SoundSourceLoan|
                #[trigger] holds(old(self).loans@, n, l) ==> l.event_id != loan.event_id,
        ensures
            final(self).wf(),
            forall|n: Seq<char>, l: SoundSourceLoan|
                #[trigger] holds(final(self).loans@, n, l) <==> holds(old(self).loans@, n, l) || (n
                    == name@ && l == loan),
    {
        let ghost nm = name@;
        self.loans.push((name, loan));
        proof {
            let before = old(self).loans@;
            assert forall|n: Seq<char>, l: SoundSourceLoan|
                #[trigger] holds(self.loans@, n, l) <==> holds(before, n, l) || (n == nm && l == loan) by {
                if holds(before, n, l) {
                    let k = choose|k: int| 0 <= k < before.len() && before[k].0@ == n && before[k].1 == l;
                    assert(self.loans@[k] == before[k]);
                }
                if n == nm && l == loan {
                    assert(self.loans@[before.len() as int].0@ == nm);
                }
                if holds(self.loans@, n, l) {
                    let k = choose|k: int| 0 <= k < self.loans@.len() && self.loans@[k].0@ == n && self.loans@[k].1 == l;
                    if k < before.len() {
                        assert(self.loans@[k] == before[k]);
                    }
                }
            }
            assert forall|a: int, b: int|
                0 <= a < self.loans@.len() && 0 <= b < self.loans@.len() && a != b
                    implies #[trigger] self.loans@[a].0@ != #[trigger] self.loans@[b].0@
                    && self.loans@[a].1.event_id != self.loans@[b].1.event_id by {
                if a < before.len() && b < before.len() {
                    assert(self.loans@[a] == before[a]);
                    assert(self.loans@[b] == before[b]);
                } else if a < before.len() {
                    assert(self.loans@[a] == before[a]);
                    assert(!holds(before, nm, before[a].1));
                    assert(holds(before, before[a].0@, before[a].1));
                } else {
                    assert(self.loans@[b] == before[b]);
                    assert(!holds(before, nm, before[b].1));
                    assert(holds(before, before[b].0@, before[b].1));
                }
            }
        }
    }
}

/// What became of one request of a tick.
#[derive(Debug, PartialEq)]
pub enum Outcome {
    /// The sound is cached.
    Loaded,
    /// The sound plays under this loan.
    Placed(SoundSourceLoan),
    /// The request failed; nothing was bound for it.
    Failed(JamError),
}

/// Every remembered loan was issued by `sources`: no id is ahead of its counter.
pub open spec fn issued_by<P>(loans: Seq<(SoundName, SoundSourceLoan)>, sources: Sources<P>) -> bool {
    forall|n: Seq<char>, l: SoundSourceLoan|
        #[trigger] holds(loans, n, l) ==> l.event_id <= sources.next_event
}

/// The fate over a tick of slot `i` of the kind `s`, bound before it: when
/// the tick cleans and the device reports the voice stopped, the slot was
/// freed, and may since hold an event of this tick (an id beyond the counter
/// at the start); otherwise it is still bound under the same id.
pub open spec fn cleaned_slot<P>(
    before: Sources<P>,
    after: Sources<P>,
    clean: bool,
    states: VoiceStates,
    s: bool,
    i: int,
) -> bool {
    if clean && before.released(s, i, if s { states.streaming_states@ } else { states.static_states@ }) {
        !after.is_bound(s, i) || after.event_at(s, i) > before.next_event
    } else {
        after.is_bound(s, i) && after.event_at(s, i) == before.event_at(s, i)
    }
}

/// Every slot bound before a tick met the fate `cleaned_slot` describes.
pub open spec fn cleaned<P>(before: Sources<P>, after: Sources<P>, clean: bool, states: VoiceStates) -> bool {
    &&& after.slot_count(false) == before.slot_count(false)
    &&& after.slot_count(true) == before.slot_count(true)
    &&& forall|s: bool, i: int|
        before.has_slot(s, i) && #[trigger] before.is_bound(s, i) ==> cleaned_slot(
            before,
            after,
            clean,
            states,
            s,
            i,
        )
}

/// A transient sound either failed or plays `ev` under a loan honoured in
/// `sources`, with an id drawn this tick (above `base`, at most `top`).
pub open spec fn transient_kept<P>(sources: Sources<P>, o: Outcome, ev: SoundEvent<P>, base: u64, top: int) -> bool {
    match o {
        Outcome::Placed(l) => {
            &&& sources.loan_valid(l)
            &&& sources.binding_at(l.streaming, l.source_id as int) == Some(
                SoundBinding { event_id: l.event_id, sound_event: ev },
            )
            &&& base < l.event_id <= top
        },
        Outcome::Failed(_) => true,
        Outcome::Loaded => false,
    }
}

/// A persistent sound either failed and holds no loan, or plays its event
/// under the loan remembered under its name, honoured in `sources`.
pub open spec fn persistent_outcome<P>(
    sources: Sources<P>,
    loans: Seq<(SoundName, SoundSourceLoan)>,
    o: Outcome,
    entry: (SoundName, SoundEvent<P>),
) -> bool {
    match o {
        Outcome::Placed(l) => {
            &&& sources.loan_valid(l)
            &&& sources.binding_at(l.streaming, l.source_id as int) == Some(
                SoundBinding { event_id: l.event_id, sound_event: entry.1 },
            )
            &&& holds(loans, entry.0@, l)
        },
        Outcome::Failed(_) => forall|l: SoundSourceLoan| !#[trigger] holds(loans, entry.0@, l),
        Outcome::Loaded => false,
    }
}

/// `persistent_outcome`, and the loan is either new this tick (above
/// `t_end`) or the one remembered under the name at the start.
pub open spec fn persistent_kept<P>(
    sources: Sources<P>,
    loans: Seq<(SoundName, SoundSourceLoan)>,
    start: Seq<(SoundName, SoundSourceLoan)>,
    o: Outcome,
    entry: (SoundName, SoundEvent<P>),
    t_end: int,
) -> bool {
    &&& persistent_outcome(sources, loans, o, entry)
    &&& o matches Outcome::Placed(l) ==> (t_end < l.event_id || holds(start, entry.0@, l))
}

/// Every persistent sound of the tick holds a loan honoured in `sources`.
pub open spec fn all_honoured<P>(
    loans: Seq<(SoundName, SoundSourceLoan)>,
    persistent: Seq<(SoundName, SoundEvent<P>)>,
    sources: Sources<P>,
) -> bool {
    forall|k: int|
        0 <= k < persistent.len() ==> exists|l: SoundSourceLoan|
            holds(loans, (#[trigger] persistent[k]).0@, l) && sources.loan_valid(l)
}

/// What a render tick did, from the loan table and pool before it to those
/// after it, with `r` its outcomes: transient sounds first, then persistent.
pub open spec fn rendered_as<P>(
    old_loans: Seq<(SoundName, SoundSourceLoan)>,
    new_loans: Seq<(SoundName, SoundSourceLoan)>,
    before: Sources<P>,
    after: Sources<P>,
    sounds: Seq<SoundEvent<P>>,
    persistent: Seq<(SoundName, SoundEvent<P>)>,
    states: VoiceStates,
    r: Seq<Outcome>,
) -> bool {
    let ns = sounds.len() as int;
    &&& r.len() == sounds.len() + persistent.len()
    // voices reported stopped are reclaimed exactly when there are transient sounds
    &&& cleaned(before, after, ns > 0, states)
    &&& after.next_event >= before.next_event
    // each transient sound failed or plays on a fresh voice
    &&& forall|k: int|
        0 <= k < ns ==> transient_kept(after, #[trigger] r[k], sounds[k], before.next_event, after.next_event as int)
    &&& forall|k: int| ns <= k < r.len() ==> !(#[trigger] r[k] is Loaded)
    // each persistent sound failed or plays under the loan remembered for it
    &&& distinct_names(persistent) ==> forall|k: int|
        0 <= k < persistent.len() ==> persistent_outcome(after, new_loans, #[trigger] r[ns + k], persistent[k])
    &&& forall|n: Seq<char>, l: SoundSourceLoan|
        #[trigger] holds(new_loans, n, l) && rendered(persistent, n) ==> after.loan_valid(l)
    &&& forall|n: Seq<char>, l: SoundSourceLoan|
        #[trigger] holds(new_loans, n, l) && !rendered(persistent, n) ==> holds(old_loans, n, l)
    &&& forall|n: Seq<char>, l: SoundSourceLoan|
        #[trigger] holds(old_loans, n, l) && !rendered(persistent, n) ==> holds(new_loans, n, l)
    // without transient sounds an honoured loan is refreshed, not replaced
    &&& ns == 0 && distinct_names(persistent) ==> forall|k: int, l: SoundSourceLoan|
        0 <= k < persistent.len() && #[trigger] holds(old_loans, persistent[k].0@, l)
            && before.loan_valid(l) ==> r[k] == Outcome::Placed(l)
    &&& ns == 0 && distinct_names(persistent) && all_honoured(old_loans, persistent, before)
        ==> after.next_event == before.next_event
}

/// What became of `ev`, played without an honoured loan during a tick from
/// the engine `before` to `after`, with `files` what was known of the files:
/// it was placed whenever a voice of the kind it needs was free, and where it
/// failed for want of its file the failure says why.
pub open spec fn tried<P>(
    before: SoundContext<P>,
    after: SoundContext<P>,
    ev: SoundEvent<P>,
    files: Seq<(SoundName, SoundFile)>,
    o: Outcome,
) -> bool {
    let name = ev.name@;
    let file = first_file(files, name);
    &&& !(o is Loaded)
    &&& before.cached(name) && !after.sources.all_bound(false) ==> o is Placed
    &&& file is Some && !before.streams(file->Some_0.size) && ogg_decoded(file->Some_0.contents@) is Some
        && playable_channels(ogg_decoded(file->Some_0.contents@)->Some_0.2) && !after.sources.all_bound(false)
        ==> o is Placed
    &&& !after.cached(name) ==> match file {
        None => o matches Outcome::Failed(JamError::FileDoesntExist(p)) && p@ == before.path_for(name),
        Some(f) => if before.streams(f.size) {
            if f.stream_opened {
                !after.sources.all_bound(true) ==> o is Placed
            } else {
                o == Outcome::Failed(JamError::DecodeError)
            }
        } else {
            match ogg_decoded(f.contents@) {
                None => o == Outcome::Failed(JamError::DecodeError),
                Some(d) => !playable_channels(d.2) ==> o == Outcome::Failed(JamError::TooManyChannels),
            }
        },
    }
}

/// Every sound of a render tick was tried: each transient sound, and each
/// persistent sound that held no loan, as `tried` says; and a persistent
/// sound whose audio was cached got a voice whenever a static voice was free.
pub open spec fn render_tried<P>(
    before: SoundContext<P>,
    after: SoundContext<P>,
    old_loans: Seq<(SoundName, SoundSourceLoan)>,
    sounds: Seq<SoundEvent<P>>,
    persistent: Seq<(SoundName, SoundEvent<P>)>,
    files: Seq<(SoundName, SoundFile)>,
    r: Seq<Outcome>,
) -> bool {
    let ns = sounds.len() as int;
    &&& forall|k: int| 0 <= k < ns ==> tried(before, after, sounds[k], files, #[trigger] r[k])
    &&& forall|k: int|
        0 <= k < persistent.len() ==> (before.cached(persistent[k].1.name@)
            && !after.sources.all_bound(false) ==> (#[trigger] r[ns + k]) is Placed)
    &&& distinct_names(persistent) ==> forall|k: int|
        0 <= k < persistent.len() && (forall|l: SoundSourceLoan| !holds(old_loans, persistent[k].0@, l))
            ==> tried(before, after, persistent[k].1, files, #[trigger] r[ns + k])
}

/// `tried` survives the rest of a tick: the cache only grows and a kind
/// whose voices are all busy stays so.
proof fn lemma_tried_mono<P>(
    before: SoundContext<P>,
    c: SoundContext<P>,
    c2: SoundContext<P>,
    ev: SoundEvent<P>,
    files: Seq<(SoundName, SoundFile)>,
    o: Outcome,
)
    requires
        tried(before, c, ev, files, o),
        forall|x: Seq<char>| #[trigger] c.cached(x) ==> c2.cached(x),
        c.sources.all_bound(false) ==> c2.sources.all_bound(false),
        c.sources.all_bound(true) ==> c2.sources.all_bound(true),
    ensures
        tried(before, c2, ev, files, o),
{
}

/// What a preload did: one outcome per name; a name cached before, or whose
/// file decodes to playable audio, is loaded; a loaded name is cached; the
/// cache grows by requested names only.
pub open spec fn preloaded_as<P>(
    before: SoundContext<P>,
    after: SoundContext<P>,
    names: Seq<SoundName>,
    files: Seq<(SoundName, SoundFile)>,
    r: Seq<Outcome>,
) -> bool {
    &&& r.len() == names.len()
    &&& forall|x: Seq<char>| #[trigger] before.cached(x) ==> after.cached(x)
    &&& forall|x: Seq<char>|
        #[trigger] after.cached(x) ==> before.cached(x) || exists|k: int|
            0 <= k < names.len() && names[k]@ == x && r[k] is Loaded
    &&& forall|k: int|
        0 <= k < names.len() ==> {
            &&& !(#[trigger] r[k] is Placed)
            &&& (before.cached(names[k]@) || loadable(files, names[k]@)) ==> r[k] is Loaded
            &&& r[k] is Loaded ==> after.cached(names[k]@)
        }
}

/// One placement keeps the fate of every slot bound before the tick.
proof fn lemma_step_keeps<P>(
    before: Sources<P>,
    after: Sources<P>,
    res: Result<SoundSourceLoan, JamError>,
    start: Sources<P>,
    clean: bool,
    states: VoiceStates,
    base: u64,
)
    requires
        cleaned(start, before, clean, states),
        base == start.next_event,
        before.next_event >= base,
        after.next_event >= before.next_event,
        before.changes_only(after, res),
        res matches Ok(l) ==> {
            &&& after.is_bound(l.streaming, l.source_id as int)
            &&& after.event_at(l.streaming, l.source_id as int) == l.event_id
            &&& (before.loan_valid(l) || (!before.is_bound(l.streaming, l.source_id as int)
                && l.event_id > base))
        },
    ensures
        cleaned(start, after, clean, states),
        after.next_event >= base,
{
    assert forall|s: bool, i: int| start.has_slot(s, i) && #[trigger] start.is_bound(s, i) implies
        cleaned_slot(start, after, clean, states, s, i) by {
        assert(cleaned_slot(start, before, clean, states, s, i));
        assert(before.has_slot(s, i));
        if let Ok(l) = res {
            if s == l.streaming && i == l.source_id {
            } else {
                assert(after.binding_at(s, i) == before.binding_at(s, i));
            }
        } else {
            assert(after.binding_at(s, i) == before.binding_at(s, i));
        }
    }
}

/// The names rendered among the first `done + 1` persistent sounds are those
/// among the first `done`, and the name of the next one.
proof fn lemma_rendered_step<P>(orig: Seq<(SoundName, SoundEvent<P>)>, done: int, nm: Seq<char>)
    requires
        0 <= done < orig.len(),
        nm == orig[done].0@,
    ensures
        forall|n: Seq<char>|
            #[trigger] rendered(orig.take(done + 1), n) <==> rendered(orig.take(done), n) || n == nm,
{
    assert forall|n: Seq<char>|
        #[trigger] rendered(orig.take(done + 1), n) <==> rendered(orig.take(done), n) || n == nm by {
        if rendered(orig.take(done + 1), n) {
            let k = choose|k: int| 0 <= k < orig.take(done + 1).len() && (#[trigger] orig.take(done + 1)[k]).0@ == n;
            if k < done {
                assert(orig.take(done)[k] == orig[k]);
            }
        }
        if rendered(orig.take(done), n) {
            let k = choose|k: int| 0 <= k < orig.take(done).len() && (#[trigger] orig.take(done)[k]).0@ == n;
            assert(orig.take(done + 1)[k] == orig[k]);
        }
        if n == nm {
            assert(orig.take(done + 1)[done] == orig[done]);
        }
    }
}

/// Persistent continuity: on a tick without transient sounds whose
/// persistent sounds have distinct names and all hold honoured loans, each
/// one keeps its loan (same slot, same id), no id is drawn, and its voice now
/// holds this tick's event.
pub proof fn lemma_persistent_continuity<P>(
    old_loans: Seq<(SoundName, SoundSourceLoan)>,
    new_loans: Seq<(SoundName, SoundSourceLoan)>,
    before: Sources<P>,
    after: Sources<P>,
    sounds: Seq<SoundEvent<P>>,
    persistent: Seq<(SoundName, SoundEvent<P>)>,
    states: VoiceStates,
    r: Seq<Outcome>,
    k: int,
    l: SoundSourceLoan,
)
    requires
        rendered_as(old_loans, new_loans, before, after, sounds, persistent, states, r),
        sounds.len() == 0,
        distinct_names(persistent),
        all_honoured(old_loans, persistent, before),
        0 <= k < persistent.len(),
        holds(old_loans, persistent[k].0@, l),
        before.loan_valid(l),
    ensures
        r[k] == Outcome::Placed(l),
        holds(new_loans, persistent[k].0@, l),
        after.loan_valid(l),
        after.binding_at(l.streaming, l.source_id as int) == Some(
            SoundBinding { event_id: l.event_id, sound_event: persistent[k].1 },
        ),
        after.next_event == before.next_event,
{
    assert(r[0 + k] == r[k]);
    assert(persistent_outcome(after, new_loans, r[0 + k], persistent[k]));
}

/// A file entry under `name` decodes to audio that a voice can play.
pub open spec fn loadable(files: Seq<(SoundName, SoundFile)>, name: Seq<char>) -> bool {
    exists|i: int|
        #[trigger] file_index(files, name, i) && (ogg_decoded(files[i].1.contents@) matches Some(
            d,
        ) && playable_channels(d.2))
}

impl SoundEngine {
    /// Caches each named sound that is not cached yet; a failure is recorded
    /// and the remaining names are still loaded.
    fn preload<P>(
        context: &mut SoundContext<P>,
        names: Vec<SoundName>,
        files: &Vec<(SoundName, SoundFile)>,
        actions: &mut Vec<SoundAction>,
    ) -> (r: Vec<Outcome>)
        requires
            old(context).wf(),
        ensures
            final(context).wf(),
            final(context).same_config(*old(context)),
            final(context).sources == old(context).sources,
            preloaded_as(*old(context), *final(context), names@, files@, r@),
    {
        let mut out: Vec<Outcome> = Vec::new();
        let mut i: usize = 0;
        while i < names.len()
            invariant
                i <= names@.len(),
                out@.len() == i,
                context.wf(),
                context.same_config(*old(context)),
                context.sources == old(context).sources,
                forall|x: Seq<char>| #[trigger] old(context).cached(x) ==> context.cached(x),
                forall|x: Seq<char>|
                    #[trigger] context.cached(x) ==> old(context).cached(x) || exists|k: int|
                        0 <= k < i && names@[k]@ == x && out@[k] is Loaded,
                forall|k: int|
                    0 <= k < i ==> {
                        &&& !(#[trigger] out@[k] is Placed)
                        &&& (old(context).cached(names@[k]@) || loadable(files@, names@[k]@)) ==> out@[k] is Loaded
                        &&& out@[k] is Loaded ==> context.cached(names@[k]@)
                    },
            decreases names@.len() - i,
        {
            let ghost before = *context;
            let ghost out_before = out@;
            let name = &names[i];
            let file = file_for(files, name);
            let res = context.load_sound(name, file, actions);
            proof {
                assert forall|x: Seq<char>| #[trigger] before.cached(x) implies context.cached(x) by {
                    let j = choose|j: int| 0 <= j < before.buffers@.len() && #[trigger] before.buffers@[j].name@ == x;
                    assert(context.buffers@[j] == before.buffers@[j]);
                }
                if res is Ok && !before.cached(name@) {
                    assert(file is Some);
                    assert(context.buffers@[before.buffers@.len() as int].name@ == name@);
                }
                if loadable(files@, names@[i as int]@) && !before.cached(names@[i as int]@) {
                    let fi = choose|fi: int|
                        #[trigger] file_index(files@, names@[i as int]@, fi) && (ogg_decoded(files@[fi].1.contents@) matches Some(
                            d,
                        ) && playable_channels(d.2));
                    assert(file is Some);
                    let fj = choose|fj: int| file_index(files@, name@, fj) && *file->Some_0 == files@[fj].1;
                    assert(fi == fj) by {
                        if fi < fj {
                            assert(files@[fi].0@ != name@);
                        } else if fj < fi {
                            assert(files@[fj].0@ != name@);
                        }
                    }
                }
            }
            match res {
                Ok(()) => {
                    out.push(Outcome::Loaded);
                },
                Err(e) => {
                    out.push(Outcome::Failed(e));
                },
            }
            proof {
                assert forall|x: Seq<char>| #[trigger] context.cached(x) implies old(context).cached(x) || exists|k: int|
                        0 <= k < i + 1 && names@[k]@ == x && out@[k] is Loaded by {
                    let j = choose|j: int| 0 <= j < context.buffers@.len() && #[trigger] context.buffers@[j].name@ == x;
                    if j < before.buffers@.len() {
                        assert(context.buffers@[j] == before.buffers@[j]);
                        assert(before.cached(x));
                        if !old(context).cached(x) {
                            let k = choose|k: int| 0 <= k < i && names@[k]@ == x && out_before[k] is Loaded;
                            assert(out@[k] == out_before[k]);
                        }
                    } else {
                        assert(x == names@[i as int]@);
                        assert(out@[i as int] is Loaded);
                    }
                }
                assert forall|k: int| 0 <= k < i + 1 implies {
                    &&& !(#[trigger] out@[k] is Placed)
                    &&& (old(context).cached(names@[k]@) || loadable(files@, names@[k]@)) ==> out@[k] is Loaded
                    &&& out@[k] is Loaded ==> context.cached(names@[k]@)
                } by {
                    if k < i {
                        assert(out@[k] == out_before[k]);
                    }
                }
            }
            i = i + 1;
        }
        out
    }

    /// One render tick: reclaims voices the device reports stopped when there
    /// are transient sounds, plays each transient sound on a fresh voice, then
    /// plays each persistent sound with the loan remembered under its name and
    /// remembers the loan that comes back. A failure is recorded and the
    /// remaining sounds are still played. A persistent sound missing from
    /// this tick is not stopped: its loan stays remembered and its voice plays
    /// on until the device reports it stopped, or indefinitely if it loops.
    #[verifier::rlimit(100)]
    #[verifier::spinoff_prover]
    fn render<P>(
        &mut self,
        context: &mut SoundContext<P>,
        sounds: Vec<SoundEvent<P>>,
        persistent_sounds: Vec<(SoundName, SoundEvent<P>)>,
        files: &Vec<(SoundName, SoundFile)>,
        states: &VoiceStates,
        actions: &mut Vec<SoundAction>,
    ) -> (r: Vec<Outcome>)
        requires
            old(self).wf(),
            old(context).wf(),
            issued_by(old(self).loans@, old(context).sources),
            old(context).sources.sources@.len() <= u32::MAX,
            old(context).sources.streaming@.len() <= u32::MAX,
            old(context).sources.next_event + sounds@.len() + persistent_sounds@.len() < u64::MAX,
        ensures
            final(self).wf(),
            final(context).wf(),
            final(context).same_config(*old(context)),
            issued_by(final(self).loans@, final(context).sources),
            rendered_as(
                old(self).loans@,
                final(self).loans@,
                old(context).sources,
                final(context).sources,
                sounds@,
                persistent_sounds@,
                *states,
                r@,
            ),
            render_tried(
                *old(context),
                *final(context),
                old(self).loans@,
                sounds@,
                persistent_sounds@,
                files@,
                r@,
            ),
    {
        let ghost base = context.sources.next_event;
        let ghost ns = sounds@.len();
        let ghost np = persistent_sounds@.len();
        let ghost orig_s = sounds@;
        let ghost orig = persistent_sounds@;
        let ghost start = self.loans@;
        let ghost st = *states;
        let mut out: Vec<Outcome> = Vec::new();
        if sounds.len() > 0 {
            let ghost before = *context;
            context.sources.clean(&states.static_states, &states.streaming_states);
            proof {
                assert forall|i: int, j: int|
                    0 <= i < context.buffers@.len() && 0 <= j < context.buffers@.len() && i != j
                        implies #[trigger] context.buffers@[i].name@ != #[trigger] context.buffers@[j].name@ by {
                    assert(before.buffers@[i].name@ != before.buffers@[j].name@);
                }
                let b = before.sources;
                let a = context.sources;
                assert forall|s: bool, i: int| b.has_slot(s, i) && #[trigger] b.is_bound(s, i) implies
                    cleaned_slot(b, a, true, st, s, i) by {
                    if s {
                        assert(a.streaming@[i] == if b.released(true, i, st.streaming_states@) {
                            StreamingSoundSource { stream: None, current_binding: None }
                        } else {
                            b.streaming@[i]
                        });
                    } else {
                        assert(a.sources@[i].current_binding == if b.released(false, i, st.static_states@) {
                            None
                        } else {
                            b.sources@[i].current_binding
                        });
                    }
                }
            }
        }
        let mut sounds = sounds;
        while sounds.len() > 0
            invariant
                *self == *old(self),
                context.wf(),
                context.same_config(*old(context)),
                context.sources.next_event + sounds@.len() + np < u64::MAX,
                context.sources.next_event >= base,
                base == old(context).sources.next_event,
                out@.len() + sounds@.len() == ns,
                sounds@ == orig_s.subrange(out@.len() as int, ns as int),
                ns == orig_s.len(),
                np == persistent_sounds@.len(),
                ns == 0 ==> *context == *old(context),
                cleaned(old(context).sources, context.sources, ns > 0, st),
                forall|x: Seq<char>| #[trigger] old(context).cached(x) ==> context.cached(x),
                forall|k: int|
                    0 <= k < out@.len() ==> tried(*old(context), *context, orig_s[k], files@, #[trigger] out@[k]),
                forall|k: int|
                    0 <= k < out@.len() ==> transient_kept(
                        context.sources,
                        #[trigger] out@[k],
                        orig_s[k],
                        base,
                        context.sources.next_event as int,
                    ),
            decreases sounds@.len(),
        {
            let ghost before = context.sources;
            let ghost cbefore = *context;
            let ghost out_before = out@;
            let ev = sounds.remove(0);
            assert(ev == orig_s[out@.len() as int]);
            let ghost ev_g = ev;
            let file = file_for(files, &ev.name);
            let res = context.play_event(ev, None, file, actions);
            match res {
                Ok(l) => {
                    out.push(Outcome::Placed(l));
                },
                Err(e) => {
                    out.push(Outcome::Failed(e));
                },
            }
            proof {
                let after = context.sources;
                lemma_step_keeps(before, after, res, old(context).sources, ns > 0, st, base);
                assert forall|k: int| 0 <= k < out@.len() implies transient_kept(
                    after,
                    #[trigger] out@[k],
                    orig_s[k],
                    base,
                    after.next_event as int,
                ) by {
                    if k < out_before.len() {
                        assert(out@[k] == out_before[k]);
                        assert(transient_kept(before, out_before[k], orig_s[k], base, before.next_event as int));
                        if let Outcome::Placed(l) = out_before[k] {
                            assert(before.is_bound(l.streaming, l.source_id as int));
                            assert(after.binding_at(l.streaming, l.source_id as int) == before.binding_at(l.streaming, l.source_id as int));
                        }
                    }
                }
                assert(sounds@ =~= orig_s.subrange(out@.len() as int, ns as int));
                if before.all_bound(false) {
                    before.lemma_kept_bindings_keep_full(after, false);
                }
                if before.all_bound(true) {
                    before.lemma_kept_bindings_keep_full(after, true);
                }
                assert forall|k: int| 0 <= k < out@.len() implies tried(*old(context), *context, orig_s[k], files@, #[trigger] out@[k]) by {
                    if k < out_before.len() {
                        assert(out@[k] == out_before[k]);
                        lemma_tried_mono(*old(context), cbefore, *context, orig_s[k], files@, out_before[k]);
                    } else {
                        assert(orig_s[k] == ev_g);
                    }
                }
            }
        }
        let ghost t_end = context.sources.next_event;
        let mut pending = persistent_sounds;
        assert(orig.len() == pending.len());
        while pending.len() > 0
            invariant
                self.wf(),
                context.wf(),
                context.same_config(*old(context)),
                old(self).wf(),
                start == old(self).loans@,
                base == old(context).sources.next_event,
                base <= t_end <= context.sources.next_event,
                orig.len() <= usize::MAX,
                ns == orig_s.len(),
                np == orig.len(),
                out@.len() >= ns,
                out@.len() - ns <= np,
                pending@ == orig.subrange(out@.len() - ns, np as int),
                context.sources.next_event + pending@.len() < u64::MAX,
                ns == 0 ==> t_end == base,
                cleaned(old(context).sources, context.sources, ns > 0, st),
                forall|x: Seq<char>| #[trigger] old(context).cached(x) ==> context.cached(x),
                forall|k: int|
                    0 <= k < ns ==> tried(*old(context), *context, orig_s[k], files@, #[trigger] out@[k]),
                forall|k: int|
                    0 <= k < out@.len() - ns ==> (old(context).cached(orig[k].1.name@)
                        && !context.sources.all_bound(false) ==> (#[trigger] out@[ns + k]) is Placed),
                distinct_names(orig) ==> forall|k: int|
                    0 <= k < out@.len() - ns && (forall|l: SoundSourceLoan| !holds(start, orig[k].0@, l))
                        ==> tried(*old(context), *context, orig[k].1, files@, #[trigger] out@[ns + k]),
                ns == 0 ==> forall|l: SoundSourceLoan|
                    #[trigger] old(context).sources.loan_valid(l) ==> context.sources.loan_valid(l),
                forall|k: int|
                    0 <= k < ns ==> transient_kept(context.sources, #[trigger] out@[k], orig_s[k], base, t_end as int),
                forall|k: int| ns <= k < out@.len() ==> !(#[trigger] out@[k] is Loaded),
                forall|n: Seq<char>, l: SoundSourceLoan|
                    #[trigger] holds(self.loans@, n, l) ==> l.event_id <= base || (t_end < l.event_id
                        && l.event_id <= context.sources.next_event),
                forall|n: Seq<char>, l: SoundSourceLoan|
                    #[trigger] holds(self.loans@, n, l) && rendered(orig.take(out@.len() - ns), n)
                        ==> context.sources.loan_valid(l),
                forall|n: Seq<char>, l: SoundSourceLoan|
                    #[trigger] holds(self.loans@, n, l) && !rendered(orig.take(out@.len() - ns), n)
                        ==> holds(start, n, l),
                forall|n: Seq<char>, l: SoundSourceLoan|
                    #[trigger] holds(start, n, l) && !rendered(orig.take(out@.len() - ns), n)
                        ==> holds(self.loans@, n, l),
                distinct_names(orig) ==> forall|k: int|
                    0 <= k < out@.len() - ns ==> persistent_kept(
                        context.sources,
                        self.loans@,
                        start,
                        #[trigger] out@[ns + k],
                        orig[k],
                        t_end as int,
                    ),
                ns == 0 && distinct_names(orig) ==> forall|k: int, l: SoundSourceLoan|
                    0 <= k < out@.len() - ns && #[trigger] holds(start, orig[k].0@, l)
                        && old(context).sources.loan_valid(l) ==> out@[ns + k] == Outcome::Placed(l),
                ns == 0 && distinct_names(orig) && all_honoured(start, orig, old(context).sources)
                    ==> context.sources.next_event == base,
            decreases pending@.len(),
        {
            let ghost done = out@.len() - ns;
            let ghost ctx_before = context.sources;
            let ghost cbefore = *context;
            let ghost loans_before = self.loans@;
            let ghost out_before = out@;
            let (name, ev) = pending.remove(0);
            assert(name == orig[done].0 && ev == orig[done].1);
            let ghost ev_g = ev;
            let ghost nm = name@;
            let prior = self.take_loan(&name);
            let ghost loans_mid = self.loans@;
            let file = file_for(files, &ev.name);
            let res = context.play_event(ev, prior, file, actions);
            let ghost after = context.sources;
            proof {
                // where the prior loan comes from
                if let Some(p) = prior {
                    assert(holds(loans_before, nm, p));
                }
                lemma_step_keeps(ctx_before, after, res, old(context).sources, ns > 0, st, base);
            }
            match res {
                Ok(l) => {
                    proof {
                        assert forall|n: Seq<char>, m: SoundSourceLoan|
                            #[trigger] holds(loans_mid, n, m) implies m.event_id != l.event_id by {
                            assert(holds(loans_before, n, m));
                            if ctx_before.loan_valid(prior->Some_0) && prior is Some {
                                lemma_holds_unique(loans_before, n, m, nm, l);
                            }
                        }
                    }
                    self.store_loan(name, l);
                    out.push(Outcome::Placed(l));
                },
                Err(e) => {
                    out.push(Outcome::Failed(e));
                },
            }
            proof {
                lemma_rendered_step(orig, done, nm);
                let taken = orig.take(done);
                let taken1 = orig.take(done + 1);
                // transient outcomes
                assert forall|k: int| 0 <= k < ns implies transient_kept(after, #[trigger] out@[k], orig_s[k], base, t_end as int) by {
                    assert(out@[k] == out_before[k]);
                    assert(transient_kept(ctx_before, out_before[k], orig_s[k], base, t_end as int));
                    if let Outcome::Placed(l) = out_before[k] {
                        assert(ctx_before.is_bound(l.streaming, l.source_id as int));
                        if let Ok(l2) = res {
                            if l2.streaming == l.streaming && l2.source_id == l.source_id {
                                assert(prior is Some && ctx_before.loan_valid(prior->Some_0));
                                assert(holds(loans_before, nm, prior->Some_0));
                            }
                        }
                        assert(after.binding_at(l.streaming, l.source_id as int) == ctx_before.binding_at(l.streaming, l.source_id as int));
                    }
                }
                assert forall|k: int| ns <= k < out@.len() implies !(#[trigger] out@[k] is Loaded) by {
                    if k < out_before.len() {
                        assert(out@[k] == out_before[k]);
                    }
                }
                assert forall|n: Seq<char>, m: SoundSourceLoan|
                    #[trigger] holds(self.loans@, n, m) implies m.event_id <= base || (t_end < m.event_id
                        && m.event_id <= after.next_event) by {
                    if !(n == nm && res == Ok::<SoundSourceLoan, JamError>(m)) {
                        assert(holds(loans_mid, n, m));
                        assert(holds(loans_before, n, m));
                    } else if !ctx_before.loan_valid(prior->Some_0) || prior is None {
                    } else {
                        assert(holds(loans_before, nm, prior->Some_0));
                    }
                }
                assert forall|n: Seq<char>, m: SoundSourceLoan|
                    #[trigger] holds(self.loans@, n, m) && rendered(taken1, n)
                        implies after.loan_valid(m) by {
                    if n == nm {
                        assert(res == Ok::<SoundSourceLoan, JamError>(m));
                    } else {
                        assert(holds(loans_mid, n, m));
                        assert(holds(loans_before, n, m));
                        assert(ctx_before.loan_valid(m));
                        ctx_before.lemma_kept_bindings_keep_loans(after, m);
                    }
                }
                assert forall|n: Seq<char>, m: SoundSourceLoan|
                    #[trigger] holds(self.loans@, n, m) && !rendered(taken1, n)
                        implies holds(start, n, m) by {
                    assert(holds(loans_mid, n, m));
                    assert(holds(loans_before, n, m));
                }
                assert forall|n: Seq<char>, m: SoundSourceLoan|
                    #[trigger] holds(start, n, m) && !rendered(taken1, n)
                        implies holds(self.loans@, n, m) by {
                    assert(holds(loans_before, n, m));
                    assert(holds(loans_mid, n, m));
                }
                if ns == 0 {
                    assert forall|m: SoundSourceLoan|
                        #[trigger] old(context).sources.loan_valid(m) implies after.loan_valid(m) by {
                        ctx_before.lemma_kept_bindings_keep_loans(after, m);
                    }
                }
                if distinct_names(orig) {
                    assert(!rendered(taken, nm)) by {
                        if rendered(taken, nm) {
                            let k = choose|k: int| 0 <= k < taken.len() && (#[trigger] taken[k]).0@ == nm;
                            assert(taken[k] == orig[k]);
                            assert(orig[k].0@ != orig[done].0@);
                        }
                    }
                    if let Some(p) = prior {
                        assert(holds(start, nm, p));
                    }
                    assert forall|k: int| 0 <= k < out@.len() - ns implies persistent_kept(
                        after,
                        self.loans@,
                        start,
                        #[trigger] out@[ns + k],
                        orig[k],
                        t_end as int,
                    ) by {
                        if k < done {
                            assert(out@[ns + k] == out_before[ns + k]);
                            assert(persistent_kept(ctx_before, loans_before, start, out_before[ns + k], orig[k], t_end as int));
                            assert(orig[k].0@ != nm);
                            if let Outcome::Placed(l) = out_before[ns + k] {
                                assert(holds(loans_mid, orig[k].0@, l));
                                assert(ctx_before.is_bound(l.streaming, l.source_id as int));
                                if let Ok(l2) = res {
                                    if l2.streaming == l.streaming && l2.source_id == l.source_id {
                                        let p = prior->Some_0;
                                        assert(prior is Some && ctx_before.loan_valid(p));
                                        if t_end < l.event_id {
                                        } else {
                                            lemma_holds_unique(start, orig[k].0@, l, nm, p);
                                        }
                                    }
                                }
                                assert(after.binding_at(l.streaming, l.source_id as int) == ctx_before.binding_at(l.streaming, l.source_id as int));
                            }
                        } else {
                            assert(k == done);
                            if let Ok(l) = res {
                                if !(prior is Some && ctx_before.loan_valid(prior->Some_0)) {
                                    assert(l.event_id == after.next_event);
                                }
                            }
                        }
                    }
                }
                if ns == 0 && distinct_names(orig) {
                    assert(!rendered(taken, nm)) by {
                        if rendered(taken, nm) {
                            let k = choose|k: int| 0 <= k < taken.len() && (#[trigger] taken[k]).0@ == nm;
                            assert(taken[k] == orig[k]);
                            assert(orig[k].0@ != orig[done].0@);
                        }
                    }
                    assert forall|k: int, m: SoundSourceLoan|
                        0 <= k < out@.len() - ns && #[trigger] holds(start, orig[k].0@, m)
                            && old(context).sources.loan_valid(m) implies out@[ns + k] == Outcome::Placed(m) by {
                        if k < done {
                            assert(out@[ns + k] == out_before[ns + k]);
                        } else {
                            assert(holds(loans_before, nm, m));
                            let p = prior->Some_0;
                            assert(prior is Some);
                            lemma_holds_unique(loans_before, nm, m, nm, p);
                            assert(ctx_before.loan_valid(m));
                        }
                    }
                    if all_honoured(start, orig, old(context).sources) {
                        let m = choose|m: SoundSourceLoan| holds(start, orig[done].0@, m) && old(context).sources.loan_valid(m);
                        assert(holds(loans_before, nm, m));
                        let p = prior->Some_0;
                        assert(prior is Some);
                        lemma_holds_unique(loans_before, nm, m, nm, p);
                        assert(ctx_before.loan_valid(m));
                    }
                }
                assert(pending@ =~= orig.subrange(out@.len() - ns, np as int));
                if ctx_before.all_bound(false) {
                    ctx_before.lemma_kept_bindings_keep_full(after, false);
                }
                if ctx_before.all_bound(true) {
                    ctx_before.lemma_kept_bindings_keep_full(after, true);
                }
                assert forall|k: int| 0 <= k < ns implies tried(*old(context), *context, orig_s[k], files@, #[trigger] out@[k]) by {
                    assert(out@[k] == out_before[k]);
                    lemma_tried_mono(*old(context), cbefore, *context, orig_s[k], files@, out_before[k]);
                }
                assert forall|k: int|
                    0 <= k < out@.len() - ns implies (old(context).cached(orig[k].1.name@)
                        && !context.sources.all_bound(false) ==> (#[trigger] out@[ns + k]) is Placed) by {
                    if k < done {
                        assert(out@[ns + k] == out_before[ns + k]);
                    } else {
                        assert(orig[k].1 == ev_g);
                    }
                }
                if distinct_names(orig) {
                    assert(!rendered(taken, nm)) by {
                        if rendered(taken, nm) {
                            let k = choose|k: int| 0 <= k < taken.len() && (#[trigger] taken[k]).0@ == nm;
                            assert(taken[k] == orig[k]);
                            assert(orig[k].0@ != orig[done].0@);
                        }
                    }
                    assert forall|k: int|
                        0 <= k < out@.len() - ns && (forall|l: SoundSourceLoan| !holds(start, orig[k].0@, l))
                            implies tried(*old(context), *context, orig[k].1, files@, #[trigger] out@[ns + k]) by {
                        if k < done {
                            assert(out@[ns + k] == out_before[ns + k]);
                            lemma_tried_mono(*old(context), cbefore, *context, orig[k].1, files@, out_before[ns + k]);
                        } else {
                            assert(orig[k].1 == ev_g);
                            if prior is Some {
                                assert(holds(loans_before, nm, prior->Some_0));
                                assert(holds(start, nm, prior->Some_0));
                            }
                        }
                    }
                }
            }
        }
        proof {
            assert(orig.take(np as int) =~= orig);
            assert forall|n: Seq<char>, l: SoundSourceLoan|
                #[trigger] holds(self.loans@, n, l) implies l.event_id <= context.sources.next_event by {}
        }
        out
    }

    /// Carries out one tick's update against `context`, appending the work
    /// for the device to `actions`. `files` tells what is known of the files
    /// of sounds that are not cached (see `wanted_files`), and `states` how the
    /// device reports the voices; it is read only when a render has transient
    /// sounds. Returns one outcome per request of the update, in order: for a
    /// render the transient sounds, then the persistent ones. A failure never
    /// stops the rest of the update. Persistent sounds left out of a render
    /// keep their loans and are not stopped.
    pub fn process<P>(
        &mut self,
        context: &mut SoundContext<P>,
        update: SoundEngineUpdate<P>,
        files: &Vec<(SoundName, SoundFile)>,
        states: &VoiceStates,
        actions: &mut Vec<SoundAction>,
    ) -> (r: Vec<Outcome>)
        requires
            old(self).wf(),
            old(context).wf(),
            issued_by(old(self).loans@, old(context).sources),
            old(context).sources.sources@.len() <= u32::MAX,
            old(context).sources.streaming@.len() <= u32::MAX,
            update matches SoundEngineUpdate::Render { sounds, persistent_sounds }
                ==> old(context).sources.next_event + sounds@.len() + persistent_sounds@.len()
                < u64::MAX,
        ensures
            final(self).wf(),
            final(context).wf(),
            final(context).same_config(*old(context)),
            issued_by(final(self).loans@, final(context).sources),
            match update {
                SoundEngineUpdate::Preload(names) => {
                    &&& final(self).loans == old(self).loans
                    &&& final(context).sources == old(context).sources
                    &&& preloaded_as(*old(context), *final(context), names@, files@, r@)
                },
                SoundEngineUpdate::Render { sounds, persistent_sounds } => {
                    &&& rendered_as(
                        old(self).loans@,
                        final(self).loans@,
                        old(context).sources,
                        final(context).sources,
                        sounds@,
                        persistent_sounds@,
                        *states,
                        r@,
                    )
                    &&& render_tried(
                        *old(context),
                        *final(context),
                        old(self).loans@,
                        sounds@,
                        persistent_sounds@,
                        files@,
                        r@,
                    )
                },
                SoundEngineUpdate::Clear => {
                    &&& final(self).loans == old(self).loans
                    &&& final(context).sources.all_free()
                    &&& final(context).buffers@.len() == 0
                    &&& final(context).sources.next_event == old(context).sources.next_event
                    &&& r@.len() == 0
                },
            },
    {
        match update {
            SoundEngineUpdate::Preload(names) => SoundEngine::preload(context, names, files, actions),
            SoundEngineUpdate::Render { sounds, persistent_sounds } => self.render(
                context,
                sounds,
                persistent_sounds,
                files,
                states,
                actions,
            ),
            SoundEngineUpdate::Clear => {
                context.purge(actions);
                Vec::new()
            },
        }
    }
}

/// The names in `update` whose sounds are not cached: the sounds whose files
/// the update may consult. A name may come more than once.
#[verifier::spinoff_prover]
pub fn wanted_files<P>(context: &SoundContext<P>, update: &SoundEngineUpdate<P>) -> (r: Vec<SoundName>)
    ensures
        forall|j: int|
            0 <= j < r@.len() ==> named(*update, (#[trigger] r@[j])@) && !context.cached(r@[j]@),
        forall|x: Seq<char>|
            named(*update, x) && !context.cached(x) ==> exists|j: int| 0 <= j < r@.len() && #[trigger] r@[j]@ == x,
{
    let mut wanted: Vec<SoundName> = Vec::new();
    match update {
        SoundEngineUpdate::Preload(names) => {
            let mut i: usize = 0;
            while i < names.len()
                invariant
                    i <= names@.len(),
                    forall|j: int|
                        0 <= j < wanted@.len() ==> !context.cached((#[trigger] wanted@[j])@) && exists|k: int|
                            0 <= k < i && names@[k]@ == wanted@[j]@,
                    forall|k: int|
                        0 <= k < i && !context.cached((#[trigger] names@[k])@) ==> exists|j: int|
                            0 <= j < wanted@.len() && wanted@[j]@ == names@[k]@,
                decreases names@.len() - i,
            {
                let ghost prev = wanted@;
                if !context.is_loaded(&names[i]) {
                    wanted.push(names[i].clone());
                    assert(wanted@[prev.len() as int]@ == names@[i as int]@);
                }
                assert forall|j: int| 0 <= j < prev.len() implies wanted@[j] == prev[j] by {}
                i = i + 1;
            }
        },
        SoundEngineUpdate::Render { sounds, persistent_sounds } => {
            let mut i: usize = 0;
            while i < sounds.len()
                invariant
                    i <= sounds@.len(),
                    forall|j: int|
                        0 <= j < wanted@.len() ==> !context.cached((#[trigger] wanted@[j])@) && exists|k: int|
                            0 <= k < i && sounds@[k].name@ == wanted@[j]@,
                    forall|k: int|
                        0 <= k < i && !context.cached((#[trigger] sounds@[k]).name@) ==> exists|j: int|
                            0 <= j < wanted@.len() && wanted@[j]@ == sounds@[k].name@,
                decreases sounds@.len() - i,
            {
                let ghost prev = wanted@;
                if !context.is_loaded(&sounds[i].name) {
                    wanted.push(sounds[i].name.clone());
                    assert(wanted@[prev.len() as int]@ == sounds@[i as int].name@);
                }
                assert forall|j: int| 0 <= j < prev.len() implies wanted@[j] == prev[j] by {}
                i = i + 1;
            }
            assert(i == sounds@.len());
            assert forall|j: int|
                0 <= j < wanted@.len() implies !context.cached((#[trigger] wanted@[j])@) && ((exists|q: int|
                    0 <= q < sounds@.len() && sounds@[q].name@ == wanted@[j]@) || (exists|q: int|
                    0 <= q < 0 && persistent_sounds@[q].1.name@ == wanted@[j]@)) by {
                assert(!context.cached(wanted@[j]@) && exists|q: int| 0 <= q < i && sounds@[q].name@ == wanted@[j]@);
            }
            let mut k: usize = 0;
            while k < persistent_sounds.len()
                invariant
                    k <= persistent_sounds@.len(),
                    forall|j: int|
                        0 <= j < wanted@.len() ==> !context.cached((#[trigger] wanted@[j])@) && ((exists|q: int|
                            0 <= q < sounds@.len() && sounds@[q].name@ == wanted@[j]@) || (exists|q: int|
                            0 <= q < k && persistent_sounds@[q].1.name@ == wanted@[j]@)),
                    forall|q: int|
                        0 <= q < sounds@.len() && !context.cached((#[trigger] sounds@[q]).name@) ==> exists|j: int|
                            0 <= j < wanted@.len() && wanted@[j]@ == sounds@[q].name@,
                    forall|q: int|
                        0 <= q < k && !context.cached((#[trigger] persistent_sounds@[q]).1.name@) ==> exists|j: int|
                            0 <= j < wanted@.len() && wanted@[j]@ == persistent_sounds@[q].1.name@,
                decreases persistent_sounds@.len() - k,
            {
                let ghost prev = wanted@;
                if !context.is_loaded(&persistent_sounds[k].1.name) {
                    wanted.push(persistent_sounds[k].1.name.clone());
                    assert(wanted@[prev.len() as int]@ == persistent_sounds@[k as int].1.name@);
                }
                assert forall|j: int| 0 <= j < prev.len() implies wanted@[j] == prev[j] by {}
                k = k + 1;
            }
        },
        SoundEngineUpdate::Clear => {},
    }
    wanted
}

} // verus!
