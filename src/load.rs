use vstd::prelude::*;

use crate::error::JamError;

verus! {

/// Decoded PCM audio: interleaved 16-bit samples.
#[derive(Debug)]
pub struct Sound {
    pub data: Vec<i16>,
    pub sample_rate: u32,
    pub channels: u8,
}

/// What the Ogg Vorbis stream held in `bytes` decodes to, read to its end:
/// the interleaved samples, the sample rate and the channel count; `None`
/// where the bytes are not a readable stream.
pub uninterp spec fn vorbis_decoded(bytes: Seq<u8>) -> Option<(Seq<i16>, u32, u8)>;

/// lewton's decoding error, carried without looking inside.
#[verifier::external_type_specification]
#[verifier::external_body]
pub struct ExVorbisError(lewton::VorbisError);

/// An Ogg page header starts at `i`: the capture pattern `OggS` and the
/// rest of the fixed 27-byte header are there.
pub open spec fn page_at(b: Seq<u8>, i: int) -> bool {
    &&& 0 <= i
    &&& i + 27 <= b.len()
    &&& b[i] == 0x4f
    &&& b[i + 1] == 0x67
    &&& b[i + 2] == 0x67
    &&& b[i + 3] == 0x53
}

/// Some packet ends on the page at `i`: one of its lacing values (as many
/// as its header byte 26 says, as far as the bytes go) is below 255.
pub open spec fn ends_packet(b: Seq<u8>, i: int) -> bool {
    exists|j: int| 0 <= j < b[i + 26] && i + 27 + j < b.len() && #[trigger] b[i + 27 + j] < 255
}

/// The page at `i` claims a granule position above `u64::MAX - 2^32`: the
/// high four bytes of its little-endian granule field are all `0xff`.
pub open spec fn high_granule(b: Seq<u8>, i: int) -> bool {
    b[i + 10] == 0xff && b[i + 11] == 0xff && b[i + 12] == 0xff && b[i + 13] == 0xff
}

/// No page that ends a packet claims a granule position in the top `2^32`
/// values of `u64` (legal files only use the very top value, `-1`, on pages
/// where no packet ends).
pub open spec fn granules_in_range(b: Seq<u8>) -> bool {
    forall|i: int| #[trigger] page_at(b, i) && ends_packet(b, i) ==> !high_granule(b, i)
}

/// What decoding `bytes` gives: `None` for bytes with a page beyond the
/// granule range, else what the decoder reads.
pub open spec fn ogg_decoded(bytes: Seq<u8>) -> Option<(Seq<i16>, u32, u8)> {
    if granules_in_range(bytes) {
        vorbis_decoded(bytes)
    } else {
        None
    }
}

/// Whether every page of `bytes` that ends a packet claims a granule
/// position below the top `2^32` values.
pub fn check_granules(bytes: &[u8]) -> (r: bool)
    ensures
        r == granules_in_range(bytes@),
{
    let len = bytes.len();
    if len < 27 {
        assert forall|i: int| #[trigger] page_at(bytes@, i) && ends_packet(bytes@, i) implies !high_granule(bytes@, i) by {}
        return true;
    }
    let mut i: usize = 0;
    while i < len - 26
        invariant
            len == bytes@.len(),
            27 <= len,
            i <= len - 26,
            forall|k: int| 0 <= k < i && #[trigger] page_at(bytes@, k) && ends_packet(bytes@, k) ==> !high_granule(bytes@, k),
        decreases len - i,
    {
        if bytes[i] == 0x4f && bytes[i + 1] == 0x67 && bytes[i + 2] == 0x67 && bytes[i + 3] == 0x53
            && bytes[i + 10] == 0xff && bytes[i + 11] == 0xff && bytes[i + 12] == 0xff && bytes[i + 13] == 0xff {
            assert(page_at(bytes@, i as int) && high_granule(bytes@, i as int));
            let segments = bytes[i + 26] as usize;
            let mut j: usize = 0;
            while j < segments && j < len - 27 - i
                invariant
                    len == bytes@.len(),
                    i + 27 <= len,
                    i < len - 26,
                    forall|k: int| 0 <= k < i && #[trigger] page_at(bytes@, k) && ends_packet(bytes@, k) ==> !high_granule(bytes@, k),
                    segments == bytes@[i + 26],
                    page_at(bytes@, i as int),
                    high_granule(bytes@, i as int),
                    forall|q: int| 0 <= q < j ==> #[trigger] bytes@[i + 27 + q] == 255,
                decreases segments - j,
            {
                if bytes[i + 27 + j] < 255 {
                    let ghost q = j as int;
                    assert(0 <= q < bytes@[i + 26] && i + 27 + q < bytes@.len() && bytes@[i + 27 + q] < 255);
                    assert(page_at(bytes@, i as int) && ends_packet(bytes@, i as int));
                    return false;
                }
                j = j + 1;
            }
            assert(!ends_packet(bytes@, i as int)) by {
                if ends_packet(bytes@, i as int) {
                    let q = choose|q: int| 0 <= q < bytes@[i + 26] && i + 27 + q < bytes@.len() && #[trigger] bytes@[i + 27 + q] < 255;
                    assert(q < j);
                }
            }
        }
        i = i + 1;
    }
    assert forall|k: int| #[trigger] page_at(bytes@, k) && ends_packet(bytes@, k) implies !high_granule(bytes@, k) by {
        assert(k < i);
    }
    true
}

/// Relies on lewton's `OggStreamReader` (`new`, `read_dec_packet_itl` until it
/// yields `None`, and the identification header's `audio_sample_rate` and
/// `audio_channels`) reading a stream held in memory: what comes out depends
/// on the bytes alone. A stream of no channels or a sample rate of zero is
/// refused when its header is read. lewton adds each decoded packet's sample
/// count to the granule position of a page on which a packet ended, unchecked
/// (inside_ogg.rs, `read_dec_packet_generic`); between two pages that set it
/// the additions stay below `2^32` (a few hundred packets of at most 4096
/// samples per channel), so bytes whose packet-ending pages keep below the
/// top `2^32` granule values never overflow it.
#[verifier::external_body]
fn decode_vorbis(bytes: &[u8]) -> (r: Result<Sound, lewton::VorbisError>)
    requires
        granules_in_range(bytes@),
    ensures
        match r {
            Ok(s) => vorbis_decoded(bytes@) == Some((s.data@, s.sample_rate, s.channels))
                && s.channels >= 1 && s.sample_rate >= 1,
            Err(_) => vorbis_decoded(bytes@) is None,
        },
{
    let mut reader = lewton::inside_ogg::OggStreamReader::new(std::io::Cursor::new(bytes))?;
    let mut data: Vec<i16> = Vec::new();
    while let Some(packet) = reader.read_dec_packet_itl()? {
        data.extend(packet);
    }
    let ident = &reader.ident_hdr;
    Ok(Sound { data, sample_rate: ident.audio_sample_rate, channels: ident.audio_channels })
}

/// Decodes a whole Ogg Vorbis file from its contents; contents with a page
/// beyond the granule range are refused as undecodable.
pub fn load_ogg(contents: &[u8]) -> (r: Result<Sound, JamError>)
    ensures
        match r {
            Ok(s) => ogg_decoded(contents@) == Some((s.data@, s.sample_rate, s.channels))
                && s.channels >= 1 && s.sample_rate >= 1,
            Err(e) => ogg_decoded(contents@) is None && e == JamError::DecodeError,
        },
{
    if !check_granules(contents) {
        return Err(JamError::DecodeError);
    }
    match decode_vorbis(contents) {
        Ok(sound) => Ok(sound),
        Err(_) => Err(JamError::DecodeError),
    }
}

} // verus!
