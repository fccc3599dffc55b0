use vstd::prelude::*;

verus! {

/// The name a sound is requested by; it also names its file.
pub type SoundName = String;

/// Identity of one placement of a sound on a voice; drawn from a counter
/// that only grows.
pub type SoundEventId = u64;

/// One desired playback, produced fresh each tick by the caller.
///
/// `params` holds what is handed through to the voice untouched (position,
/// gain, pitch, attenuation); this layer only reads the name and the loop flag.
pub struct SoundEvent<P> {
    pub name: SoundName,
    pub params: P,
    pub loop_sound: bool,
}

} // verus!
