use jam::audio::SoundEvent;
use jam::context::{create_sound_context, SoundAction, SoundBuffer, SoundContext, SoundFile};
use jam::engine::{file_for, wanted_files, Outcome, SoundEngine, SoundEngineUpdate, VoiceStates};
use jam::error::JamError;
use jam::load::{check_granules, load_ogg};
use jam::source::{CombinedSource, SoundSourceLoan, SourceState, StreamingSoundSource};
use jam::stream::{ChunkPlan, STREAM_CHUNK_SAMPLES, STREAM_TARGET_BUFFERS};

fn event(name: &str, gain: f32) -> SoundEvent<f32> {
    SoundEvent { name: name.to_string(), params: gain, loop_sound: false }
}

fn context(statics: usize, streams: usize) -> SoundContext<f32> {
    let mut ctx = create_sound_context("sounds", "ogg", 100_000);
    ctx.create(statics, streams);
    ctx
}

fn cache(ctx: &mut SoundContext<f32>, name: &str) {
    ctx.buffers.push(SoundBuffer { name: name.to_string(), sample_rate: 44_100, channels: 2, samples: 8 });
}

fn no_states() -> VoiceStates {
    VoiceStates { static_states: Vec::new(), streaming_states: Vec::new() }
}

fn large_file() -> SoundFile {
    SoundFile { size: 5_000_000, contents: Vec::new(), stream_opened: true }
}

#[test]
fn full_path_joins_directory_name_and_extension() {
    let ctx = context(0, 0);
    assert_eq!(ctx.full_path("music"), "sounds/music.ogg");
}

#[test]
fn stale_loan_is_rejected_after_reassignment() {
    let mut ctx = context(1, 0);
    cache(&mut ctx, "blip");
    let mut actions = Vec::new();
    let first = ctx.play_event(event("blip", 1.0), None, None, &mut actions).unwrap();
    assert!(ctx.sources.for_loan(first).is_some());
    ctx.stop(first, &mut actions);
    assert!(ctx.sources.for_loan(first).is_none());
    let second = ctx.play_event(event("blip", 1.0), None, None, &mut actions).unwrap();
    assert_eq!(second.source_id, first.source_id);
    assert!(second.event_id > first.event_id);
    assert!(ctx.sources.for_loan(first).is_none());
    assert_eq!(ctx.sources.for_loan(second), Some(CombinedSource::Static(0)));
}

#[test]
fn loans_never_share_a_slot() {
    let mut ctx = context(2, 0);
    let a = ctx.sources.loan_next_free_static(event("a", 1.0)).unwrap();
    let b = ctx.sources.loan_next_free_static(event("b", 1.0)).unwrap();
    assert_eq!(a.source_id, 0);
    assert_eq!(b.source_id, 1);
    assert_ne!(a.event_id, b.event_id);
    assert!(ctx.sources.loan_next_free_static(event("c", 1.0)).is_none());
    // the spent id still advances the counter
    assert_eq!(ctx.sources.next_event, 3);
    let binding = ctx.sources.sources[0].current_binding.as_ref().unwrap();
    assert_eq!(binding.sound_event.name, "a");
}

#[test]
fn refresh_keeps_loan_and_updates_parameters() {
    let mut ctx = context(2, 0);
    cache(&mut ctx, "music");
    let mut actions = Vec::new();
    let loan = ctx.play_event(event("music", 0.5), None, None, &mut actions).unwrap();
    let counter = ctx.sources.next_event;
    let again = ctx.play_event(event("music", 0.8), Some(loan), None, &mut actions).unwrap();
    assert_eq!(again, loan);
    assert_eq!(ctx.sources.next_event, counter);
    let binding = ctx.sources.sources[loan.source_id].current_binding.as_ref().unwrap();
    assert_eq!(binding.event_id, loan.event_id);
    assert_eq!(binding.sound_event.params, 0.8);
    assert!(matches!(actions.last(), Some(SoundAction::Refresh(CombinedSource::Static(0)))));
}

#[test]
fn exhausted_static_pool_reports_no_free_source() {
    let mut ctx = context(2, 1);
    cache(&mut ctx, "blip");
    let mut actions = Vec::new();
    assert!(ctx.play_event(event("blip", 1.0), None, None, &mut actions).is_ok());
    assert!(ctx.play_event(event("blip", 1.0), None, None, &mut actions).is_ok());
    let third = ctx.play_event(event("blip", 1.0), None, None, &mut actions);
    assert_eq!(third, Err(JamError::NoFreeSource(false)));
    assert_eq!(actions.len(), 2);
}

#[test]
fn exhausted_streaming_pool_reports_no_free_source() {
    let mut ctx = context(0, 1);
    let mut actions = Vec::new();
    let file = large_file();
    let loan = ctx.play_event(event("music", 1.0), None, Some(&file), &mut actions).unwrap();
    assert!(loan.streaming);
    match &actions[0] {
        SoundAction::PlayStreaming { source_id, path } => {
            assert_eq!(*source_id, 0);
            assert_eq!(path, "sounds/music.ogg");
        }
        _ => panic!("expected a streaming start"),
    }
    let again = ctx.play_event(event("theme", 1.0), None, Some(&file), &mut actions);
    assert_eq!(again, Err(JamError::NoFreeSource(true)));
}

#[test]
fn missing_file_is_reported_with_its_path() {
    let mut ctx = context(1, 1);
    let mut actions = Vec::new();
    let r = ctx.play_event(event("ghost", 1.0), None, None, &mut actions);
    assert_eq!(r, Err(JamError::FileDoesntExist("sounds/ghost.ogg".to_string())));
    assert!(actions.is_empty());
    assert_eq!(ctx.sources.next_event, 0);
}

#[test]
fn unreadable_file_is_a_decode_error() {
    let mut ctx = context(1, 1);
    let mut actions = Vec::new();
    let file = SoundFile { size: 12, contents: b"not a vorbis".to_vec(), stream_opened: false };
    let r = ctx.play_event(event("noise", 1.0), None, Some(&file), &mut actions);
    assert_eq!(r, Err(JamError::DecodeError));
    assert!(!ctx.is_loaded(&"noise".to_string()));
    assert!(actions.is_empty());
    assert!(matches!(load_ogg(&[]), Err(JamError::DecodeError)));
    assert!(matches!(load_ogg(b"OggS"), Err(JamError::DecodeError)));
}

#[test]
fn load_sound_keeps_a_cached_sound() {
    let mut ctx = context(1, 0);
    cache(&mut ctx, "blip");
    let mut actions = Vec::new();
    assert_eq!(ctx.load_sound(&"blip".to_string(), None, &mut actions), Ok(()));
    assert!(actions.is_empty());
    assert_eq!(
        ctx.load_sound(&"ghost".to_string(), None, &mut actions),
        Err(JamError::FileDoesntExist("sounds/ghost.ogg".to_string()))
    );
}

#[test]
fn clean_frees_voices_that_stopped_on_their_own() {
    let mut ctx = context(2, 1);
    cache(&mut ctx, "blip");
    let mut actions = Vec::new();
    let a = ctx.play_event(event("blip", 1.0), None, None, &mut actions).unwrap();
    let b = ctx.play_event(event("blip", 1.0), None, None, &mut actions).unwrap();
    let states = vec![SourceState::Stopped, SourceState::Playing];
    let counts = ctx.sources.clean(&states, &Vec::new());
    assert_eq!(counts, (1, 1));
    assert!(ctx.sources.sources[0].current_binding.is_none());
    assert!(ctx.sources.for_loan(a).is_none());
    assert!(ctx.sources.for_loan(b).is_some());
}

#[test]
fn persistent_sound_keeps_its_voice_across_ticks() {
    let mut ctx = context(2, 0);
    cache(&mut ctx, "music");
    let mut engine = SoundEngine::new();
    let mut actions = Vec::new();
    let tick1 = SoundEngineUpdate::Render {
        sounds: Vec::new(),
        persistent_sounds: vec![("music".to_string(), event("music", 0.5))],
    };
    let outcomes = engine.process(&mut ctx, tick1, &Vec::new(), &no_states(), &mut actions);
    assert_eq!(engine.loans.len(), 1);
    let first = engine.loans[0].1;
    assert_eq!(outcomes, vec![Outcome::Placed(first)]);
    let counter = ctx.sources.next_event;
    let tick2 = SoundEngineUpdate::Render {
        sounds: Vec::new(),
        persistent_sounds: vec![("music".to_string(), event("music", 0.9))],
    };
    let outcomes = engine.process(&mut ctx, tick2, &Vec::new(), &no_states(), &mut actions);
    assert_eq!(outcomes, vec![Outcome::Placed(first)]);
    assert_eq!(engine.loans.len(), 1);
    assert_eq!(engine.loans[0].0, "music");
    assert_eq!(engine.loans[0].1, first);
    assert_eq!(ctx.sources.next_event, counter);
    let binding = ctx.sources.sources[first.source_id].current_binding.as_ref().unwrap();
    assert_eq!(binding.sound_event.params, 0.9);
    assert!(matches!(actions.last(), Some(SoundAction::Refresh(_))));
    assert!(ctx.sources.sources[1].current_binding.is_none());
}

#[test]
fn render_keeps_going_after_a_failure() {
    let mut ctx = context(1, 0);
    cache(&mut ctx, "blip");
    let mut engine = SoundEngine::new();
    let mut actions = Vec::new();
    let update = SoundEngineUpdate::Render {
        sounds: vec![event("ghost", 1.0), event("blip", 1.0)],
        persistent_sounds: vec![("missing".to_string(), event("missing", 1.0))],
    };
    let outcomes = engine.process(&mut ctx, update, &Vec::new(), &no_states(), &mut actions);
    assert_eq!(outcomes.len(), 3);
    assert_eq!(outcomes[0], Outcome::Failed(JamError::FileDoesntExist("sounds/ghost.ogg".to_string())));
    assert!(matches!(outcomes[1], Outcome::Placed(_)));
    assert_eq!(outcomes[2], Outcome::Failed(JamError::FileDoesntExist("sounds/missing.ogg".to_string())));
    assert!(ctx.sources.sources[0].current_binding.is_some());
    assert!(engine.loans.is_empty());
}

#[test]
fn clear_empties_cache_and_frees_every_voice() {
    let mut ctx = context(1, 1);
    cache(&mut ctx, "blip");
    let mut engine = SoundEngine::new();
    let mut actions = Vec::new();
    let file = large_file();
    ctx.play_event(event("blip", 1.0), None, None, &mut actions).unwrap();
    ctx.play_event(event("music", 1.0), None, Some(&file), &mut actions).unwrap();
    actions.clear();
    let outcomes = engine.process(&mut ctx, SoundEngineUpdate::Clear, &Vec::new(), &no_states(), &mut actions);
    assert!(outcomes.is_empty());
    assert!(ctx.buffers.is_empty());
    assert!(ctx.sources.sources[0].current_binding.is_none());
    assert!(ctx.sources.streaming[0].current_binding.is_none());
    assert!(ctx.sources.streaming[0].stream.is_none());
    assert_eq!(actions.len(), 3);
    assert!(matches!(actions[0], SoundAction::Stop(CombinedSource::Static(0))));
    assert!(matches!(actions[1], SoundAction::Stop(CombinedSource::Streaming(0))));
    assert!(matches!(actions[2], SoundAction::DropBuffers));
    // the sound must be loaded again
    assert!(!ctx.is_loaded(&"blip".to_string()));
    let again = ctx.play_event(event("blip", 1.0), None, None, &mut actions);
    assert_eq!(again, Err(JamError::FileDoesntExist("sounds/blip.ogg".to_string())));
}

#[test]
fn preload_records_each_failure_and_goes_on() {
    let mut ctx = context(1, 0);
    cache(&mut ctx, "blip");
    let mut engine = SoundEngine::new();
    let mut actions = Vec::new();
    let files = vec![("bad".to_string(), SoundFile { size: 3, contents: vec![1, 2, 3], stream_opened: false })];
    let update = SoundEngineUpdate::Preload(vec!["ghost".to_string(), "bad".to_string(), "blip".to_string()]);
    let outcomes = engine.process(&mut ctx, update, &files, &no_states(), &mut actions);
    assert_eq!(
        outcomes,
        vec![
            Outcome::Failed(JamError::FileDoesntExist("sounds/ghost.ogg".to_string())),
            Outcome::Failed(JamError::DecodeError),
            Outcome::Loaded,
        ]
    );
    assert!(actions.is_empty());
}

#[test]
fn wanted_files_lists_uncached_names() {
    let mut ctx = context(1, 0);
    cache(&mut ctx, "blip");
    let update: SoundEngineUpdate<f32> = SoundEngineUpdate::Render {
        sounds: vec![event("blip", 1.0), event("boom", 1.0)],
        persistent_sounds: vec![("music".to_string(), event("music", 1.0))],
    };
    assert_eq!(wanted_files(&ctx, &update), vec!["boom".to_string(), "music".to_string()]);
    let clear: SoundEngineUpdate<f32> = SoundEngineUpdate::Clear;
    assert!(wanted_files(&ctx, &clear).is_empty());
}

#[test]
fn file_for_takes_the_first_entry() {
    let files = vec![
        ("a".to_string(), SoundFile { size: 1, contents: vec![1], stream_opened: false }),
        ("b".to_string(), SoundFile { size: 2, contents: vec![2], stream_opened: false }),
        ("a".to_string(), SoundFile { size: 3, contents: vec![3], stream_opened: false }),
    ];
    assert_eq!(file_for(&files, &"a".to_string()).unwrap().size, 1);
    assert_eq!(file_for(&files, &"b".to_string()).unwrap().size, 2);
    assert!(file_for(&files, &"c".to_string()).is_none());
}

#[test]
fn should_stream_above_threshold_only() {
    let ctx = context(0, 0);
    assert!(!ctx.should_stream(100_000));
    assert!(ctx.should_stream(100_001));
}

fn open_stream() -> StreamingSoundSource<f32> {
    open_stream_of(event("music", 1.0))
}

fn open_stream_of(ev: SoundEvent<f32>) -> StreamingSoundSource<f32> {
    let mut ctx = context(0, 1);
    ctx.sources.loan_next_free_streaming(ev).unwrap();
    ctx.sources.streaming.pop().unwrap()
}

#[test]
fn refill_reaches_the_low_water_mark() {
    let mut voice = open_stream();
    let mut queued: i32 = 0;
    let mut processed: i32 = 0;
    let mut passes = 0;
    while voice.needs_chunk(queued, processed) {
        match voice.chunk_decoded(STREAM_CHUNK_SAMPLES, false, 2, processed).unwrap() {
            ChunkPlan::Queue { reuse_processed, stereo } => {
                assert!(stereo);
                if reuse_processed {
                    processed -= 1;
                } else {
                    queued += 1;
                }
            }
            _ => panic!("a full chunk was decoded"),
        }
        passes += 1;
    }
    assert_eq!(queued, STREAM_TARGET_BUFFERS);
    assert_eq!(passes, 5);
    assert_eq!(voice.stream.unwrap().queued_chunks, 5);
    assert_eq!(voice.stream.unwrap().decoded_samples, 250_000);
    // a full queue with nothing played asks for nothing
    assert!(!voice.needs_chunk(queued, 0));
    // a played buffer asks for a refill into that buffer
    assert!(voice.needs_chunk(queued, 1));
    assert_eq!(
        voice.chunk_decoded(STREAM_CHUNK_SAMPLES, false, 1, 1),
        Ok(ChunkPlan::Queue { reuse_processed: true, stereo: false })
    );
}

#[test]
fn short_or_empty_chunk_ends_the_stream() {
    let mut voice = open_stream();
    assert_eq!(voice.chunk_decoded(10, false, 2, 0), Ok(ChunkPlan::Queue { reuse_processed: false, stereo: true }));
    assert!(voice.stream.is_none());
    assert!(!voice.needs_chunk(0, 0));
    let mut voice = open_stream();
    assert_eq!(voice.chunk_decoded(0, false, 2, 0), Ok(ChunkPlan::Skip));
    assert!(voice.stream.is_none());
    let mut voice = open_stream();
    assert_eq!(voice.chunk_decoded(STREAM_CHUNK_SAMPLES, true, 2, 0), Ok(ChunkPlan::Queue { reuse_processed: false, stereo: true }));
    assert!(voice.stream.is_none());
}

#[test]
fn chunk_with_too_many_channels_is_refused() {
    let mut voice = open_stream();
    assert_eq!(voice.chunk_decoded(STREAM_CHUNK_SAMPLES, false, 6, 0), Err(JamError::TooManyChannels));
    assert!(voice.stream.is_some());
}

#[test]
fn stop_ignores_a_stale_loan() {
    let mut ctx = context(1, 0);
    cache(&mut ctx, "blip");
    let mut actions = Vec::new();
    let loan = ctx.play_event(event("blip", 1.0), None, None, &mut actions).unwrap();
    actions.clear();
    let stale = SoundSourceLoan { source_id: 0, event_id: loan.event_id + 7, streaming: false };
    ctx.stop(stale, &mut actions);
    assert!(actions.is_empty());
    assert!(ctx.sources.for_loan(loan).is_some());
    let wild = SoundSourceLoan { source_id: 9, event_id: loan.event_id, streaming: false };
    assert!(ctx.sources.for_loan(wild).is_none());
}

#[test]
fn stream_that_does_not_open_binds_nothing() {
    let mut ctx = context(0, 1);
    let mut actions = Vec::new();
    let file = SoundFile { size: 5_000_000, contents: Vec::new(), stream_opened: false };
    let r = ctx.play_event(event("music", 1.0), None, Some(&file), &mut actions);
    assert_eq!(r, Err(JamError::DecodeError));
    assert!(ctx.sources.streaming[0].current_binding.is_none());
    assert!(actions.is_empty());
    assert_eq!(ctx.sources.next_event, 0);
}

#[test]
fn render_with_transients_reclaims_stopped_voices_first() {
    let mut ctx = context(1, 0);
    cache(&mut ctx, "blip");
    let mut engine = SoundEngine::new();
    let mut actions = Vec::new();
    let old = ctx.play_event(event("blip", 1.0), None, None, &mut actions).unwrap();
    let stopped = VoiceStates { static_states: vec![SourceState::Stopped], streaming_states: Vec::new() };
    // a silent tick does not reclaim
    let silent = SoundEngineUpdate::Render { sounds: Vec::new(), persistent_sounds: Vec::new() };
    assert!(engine.process(&mut ctx, silent, &Vec::new(), &stopped, &mut actions).is_empty());
    assert!(ctx.sources.for_loan(old).is_some());
    // a tick with a transient sound reclaims the voice and reuses it
    let tick = SoundEngineUpdate::Render { sounds: vec![event("blip", 0.3)], persistent_sounds: Vec::new() };
    let outcomes = engine.process(&mut ctx, tick, &Vec::new(), &stopped, &mut actions);
    match outcomes[0] {
        Outcome::Placed(l) => {
            assert_eq!(l.source_id, 0);
            assert!(l.event_id > old.event_id);
        }
        _ => panic!("the reclaimed voice should be reused"),
    }
    assert!(ctx.sources.for_loan(old).is_none());
}

#[test]
fn looping_stream_still_closes_at_end_of_file() {
    let mut looping = event("music", 1.0);
    looping.loop_sound = true;
    let mut voice = open_stream_of(looping);
    assert!(voice.chunk_decoded(STREAM_CHUNK_SAMPLES, false, 1, 0).is_ok());
    assert_eq!(voice.chunk_decoded(0, false, 1, 0), Ok(ChunkPlan::Skip));
    assert!(voice.stream.is_none());
    assert!(!voice.needs_chunk(0, 0));
}

fn page(granule_high: u8, lacing: u8) -> Vec<u8> {
    let mut b = vec![0x4f, 0x67, 0x67, 0x53, 0, 0];
    b.extend([0, 0, 0, 0, granule_high, granule_high, granule_high, granule_high]);
    b.extend([0u8; 12]);
    b.push(1);
    b.push(lacing);
    b.extend([0u8; 16]);
    b
}

#[test]
fn page_claiming_a_top_granule_is_refused_before_decoding() {
    let bad = page(0xff, 10);
    assert!(!check_granules(&bad));
    assert!(matches!(load_ogg(&bad), Err(JamError::DecodeError)));
    // a page on which no packet ends may carry any granule position
    assert!(check_granules(&page(0xff, 255)));
    assert!(check_granules(&page(0x7f, 10)));
    let mut ctx = context(1, 0);
    let mut actions = Vec::new();
    let file = SoundFile { size: bad.len() as u64, contents: bad, stream_opened: false };
    let r = ctx.play_event(event("crafted", 1.0), None, Some(&file), &mut actions);
    assert_eq!(r, Err(JamError::DecodeError));
    assert!(ctx.buffers.is_empty());
}
