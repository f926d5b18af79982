//! The whole decode pipeline held in memory: open the container, decode the
//! stream with its dictionary, and start a pass over the records.
use vstd::prelude::*;
use crate::codec::{DecodeError, after_skippable_frame, decode, zstd_decode_result};
use crate::container::{
    FormatError, MAX_DICTIONARY_LENGTH, container_bytes, has_compressed_dictionary_magic,
    has_raw_dictionary_magic, lemma_container_layout, open, open_outcome, resolution,
};
use crate::stream::RecordStream;

verus! {

/// Why an archive could not be read.
#[derive(Debug, Clone, Copy, PartialEq, Eq, Structural)]
pub enum ArchiveError {
    Format(FormatError),
    Decode(DecodeError),
}

/// What the codec gives for an archive under its dictionary. It decodes the
/// archive from its first byte; the container frame is a skippable frame, so
/// where a payload follows it the outcome is that of decoding the payload.
pub open spec fn decoded_archive(source: Seq<u8>, dictionary: Seq<u8>) -> Result<
    Seq<u8>,
    DecodeError,
> {
    match after_skippable_frame(source) {
        Some(rest) => if rest.len() > 0 {
            zstd_decode_result(rest, dictionary)
        } else {
            zstd_decode_result(source, dictionary)
        },
        None => zstd_decode_result(source, dictionary),
    }
}

/// The outcome of reading an archive: its decoded bytes, or why not.
pub open spec fn archive_outcome(source: Seq<u8>) -> Result<Seq<u8>, ArchiveError> {
    match open_outcome(source) {
        Err(e) => Err(ArchiveError::Format(e)),
        Ok(d) => match decoded_archive(source, d) {
            Ok(p) => Ok(p),
            Err(e) => Err(ArchiveError::Decode(e)),
        },
    }
}

/// Opens an archive held in memory and decodes it: the container frame gives
/// the dictionary, and the codec then decodes the archive from its first
/// byte with that dictionary. The records are read from the stream that comes
/// back.
pub fn read_archive(source: &[u8]) -> (r: Result<RecordStream, ArchiveError>)
    ensures
        match (r, archive_outcome(source@)) {
            (Ok(st), Ok(p)) => st.data() == p,
            (Err(e), Err(f)) => e == f,
            _ => false,
        },
        r matches Ok(st) ==> st.wf() && st.position() == 0 && !st.is_done() && st.seen() == 0
            && st.skipped_count() == 0,
{
    let dictionary = match open(source) {
        Ok(d) => d,
        Err(e) => return Err(ArchiveError::Format(e)),
    };
    match decode(source, dictionary.as_slice()) {
        Ok(plain) => Ok(RecordStream::new(plain)),
        Err(e) => Err(ArchiveError::Decode(e)),
    }
}

/// Round trip through the whole pipeline: an archive that `frame_container`
/// wrote from a raw (or empty) dictionary and a payload frame that decodes,
/// under that dictionary, to `payload` reads back as exactly `payload`.
pub proof fn lemma_archive_round_trip(dictionary: Seq<u8>, payload: Seq<u8>, encoded: Seq<u8>)
    requires
        dictionary.len() == 0 || has_raw_dictionary_magic(dictionary),
        dictionary.len() <= MAX_DICTIONARY_LENGTH,
        encoded.len() > 0,
        zstd_decode_result(encoded, dictionary) == Ok::<Seq<u8>, DecodeError>(payload),
    ensures
        archive_outcome(container_bytes(dictionary, encoded)) == Ok::<Seq<u8>, ArchiveError>(
            payload,
        ),
{
    let s = container_bytes(dictionary, encoded);
    lemma_container_layout(dictionary, encoded);
    if dictionary.len() == 0 {
        assert(dictionary =~= Seq::<u8>::empty());
    }
    assert(resolution(dictionary) == Ok::<Seq<u8>, FormatError>(dictionary));
    assert(open_outcome(s) == Ok::<Seq<u8>, FormatError>(dictionary));
    assert(after_skippable_frame(s) == Some(encoded));
}

/// An archive whose dictionary frame is a raw dictionary and one whose frame
/// is that dictionary compressed by the plain codec read back the same: both
/// open to that dictionary and decode to the same bytes, or fail alike.
pub proof fn lemma_archive_dictionary_paths_agree(
    raw: Seq<u8>,
    compressed: Seq<u8>,
    encoded: Seq<u8>,
)
    requires
        has_raw_dictionary_magic(raw),
        has_compressed_dictionary_magic(compressed),
        raw.len() <= MAX_DICTIONARY_LENGTH,
        compressed.len() <= MAX_DICTIONARY_LENGTH,
        zstd_decode_result(compressed, Seq::empty()) == Ok::<Seq<u8>, DecodeError>(raw),
        encoded.len() > 0,
    ensures
        open_outcome(container_bytes(raw, encoded)) == Ok::<Seq<u8>, FormatError>(raw),
        open_outcome(container_bytes(compressed, encoded)) == Ok::<Seq<u8>, FormatError>(raw),
        archive_outcome(container_bytes(raw, encoded)) == archive_outcome(
            container_bytes(compressed, encoded),
        ),
{
    lemma_container_layout(raw, encoded);
    lemma_container_layout(compressed, encoded);
    assert(resolution(compressed) == Ok::<Seq<u8>, FormatError>(raw));
    assert(after_skippable_frame(container_bytes(raw, encoded)) == Some(encoded));
    assert(after_skippable_frame(container_bytes(compressed, encoded)) == Some(encoded));
}

} // verus!
