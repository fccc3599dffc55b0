use vstd::prelude::*;

verus! {

/// What can go wrong while placing or loading a sound.
#[derive(PartialEq, Eq, Debug)]
pub enum JamError {
    /// No file exists at the given path.
    FileDoesntExist(String),
    /// Every voice of the requested kind (streaming or not) is busy.
    NoFreeSource(bool),
    /// The audio has more channels than a voice can play (over two), or none.
    TooManyChannels,
    /// The file is not a readable Ogg Vorbis stream.
    DecodeError,
}

} // verus!
