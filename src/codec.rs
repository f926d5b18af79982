//! The dictionary-seeded zstd codec.
use vstd::prelude::*;

verus! {

/// Why a zstd stream could not be decoded.
#[derive(Debug, Clone, Copy, PartialEq, Eq, Structural)]
pub enum DecodeError {
    /// zstd refused the dictionary.
    DictionaryRejected,
    /// A frame failed to decode: bad header, bad block or checksum mismatch.
    StreamCorrupt,
    /// The stream ended in the middle of a frame.
    Truncated,
}

/// What zstd's streaming decoder gives for `data` under `dictionary`: the
/// decoded bytes, or why it stopped.
pub uninterp spec fn zstd_decode_result(data: Seq<u8>, dictionary: Seq<u8>) -> Result<
    Seq<u8>,
    DecodeError,
>;

/// What zstd's streaming encoder gives for `payload` under `dictionary`:
/// the compressed frame, or `None` where it refuses the dictionary.
pub uninterp spec fn zstd_encode_result(payload: Seq<u8>, dictionary: Seq<u8>) -> Option<Seq<u8>>;

pub open spec fn decode_view(r: Result<Vec<u8>, DecodeError>) -> Result<Seq<u8>, DecodeError> {
    match r {
        Ok(v) => Ok(v@),
        Err(e) => Err(e),
    }
}

pub open spec fn encode_view(r: Option<Vec<u8>>) -> Option<Seq<u8>> {
    match r {
        Some(v) => Some(v@),
        None => None,
    }
}

/// The size that a skippable frame's header declares, read unsigned and
/// little-endian from bytes 4 to 7.
pub open spec fn skippable_size(data: Seq<u8>) -> int {
    data[4] as int + data[5] as int * 0x100 + data[6] as int * 0x10000 + data[7] as int * 0x1000000
}

/// What follows a leading skippable frame with magic `5D 2A 4D 18`, where
/// the data opens with a whole one.
pub open spec fn after_skippable_frame(data: Seq<u8>) -> Option<Seq<u8>> {
    if data.len() >= 8 && data[0] == 0x5Du8 && data[1] == 0x2Au8 && data[2] == 0x4Du8 && data[3]
        == 0x18u8 && 8 + skippable_size(data) <= data.len() {
        Some(data.subrange(8 + skippable_size(data), data.len() as int))
    } else {
        None
    }
}

/// The zstd compression level used by `encode`.
pub const COMPRESSION_LEVEL: i32 = 3;

/// Relies on `zstd::stream::read::Decoder::with_dictionary` and its `Read`
/// impl: decodes every frame of `data` (skipping skippable frames) with
/// `dictionary` loaded. A dictionary that cannot be loaded fails the
/// constructor; a stream that ends inside a frame fails a read with
/// `UnexpectedEof`; any other codec error fails a read with another kind.
/// A skippable frame (magic 0x184D2A5D, then its size as a little-endian
/// `u32`) contributes no output: the decoder reads past it, so where more
/// input follows, the outcome is that of decoding what follows. (An input
/// that is empty, or ends right after such a frame with nothing before it,
/// differs: the former fails with `UnexpectedEof`.)
#[verifier::external_body]
fn zstd_decode(data: &[u8], dictionary: &[u8]) -> (r: Result<Vec<u8>, DecodeError>)
    ensures
        decode_view(r) == zstd_decode_result(data@, dictionary@),
        after_skippable_frame(data@) is Some && after_skippable_frame(data@)->Some_0.len() > 0 ==> decode_view(r) == zstd_decode_result(after_skippable_frame(data@)->Some_0, dictionary@),
{
    let mut decoder = match zstd::stream::read::Decoder::with_dictionary(
        std::io::BufReader::new(data),
        dictionary,
    ) {
        Ok(d) => d,
        Err(_) => return Err(DecodeError::DictionaryRejected),
    };
    let mut out = Vec::new();
    match std::io::Read::read_to_end(&mut decoder, &mut out) {
        Ok(_) => Ok(out),
        Err(e) if e.kind() == std::io::ErrorKind::UnexpectedEof => Err(DecodeError::Truncated),
        Err(_) => Err(DecodeError::StreamCorrupt),
    }
}

/// Relies on `zstd::stream::read::Encoder::with_dictionary` and its `Read`
/// impl: compresses `payload` into one zstd frame with `dictionary` loaded.
/// zstd is lossless: decoding that frame under the same dictionary gives the
/// payload back.
#[verifier::external_body]
fn zstd_encode(payload: &[u8], dictionary: &[u8]) -> (r: Option<Vec<u8>>)
    ensures
        encode_view(r) == zstd_encode_result(payload@, dictionary@),
        match r { Some(c) => zstd_decode_result(c@, dictionary@) == Ok::<Seq<u8>, DecodeError>(payload@), None => true },
{
    let mut encoder = zstd::stream::read::Encoder::with_dictionary(
        std::io::BufReader::new(payload),
        COMPRESSION_LEVEL,
        dictionary,
    ).ok()?;
    let mut out = Vec::new();
    std::io::Read::read_to_end(&mut encoder, &mut out).ok()?;
    Some(out)
}

/// Decodes a zstd stream with a dictionary loaded; an empty dictionary
/// decodes plain zstd. A leading skippable frame adds nothing to the outcome.
pub fn decode(data: &[u8], dictionary: &[u8]) -> (r: Result<Vec<u8>, DecodeError>)
    ensures
        decode_view(r) == zstd_decode_result(data@, dictionary@),
        after_skippable_frame(data@) is Some && after_skippable_frame(data@)->Some_0.len() > 0 ==> decode_view(r) == zstd_decode_result(after_skippable_frame(data@)->Some_0, dictionary@),
{
    zstd_decode(data, dictionary)
}

/// Compresses a payload with a dictionary loaded; what comes out decodes,
/// under the same dictionary, to the payload.
pub fn encode(payload: &[u8], dictionary: &[u8]) -> (r: Option<Vec<u8>>)
    ensures
        encode_view(r) == zstd_encode_result(payload@, dictionary@),
        r is Some ==> zstd_decode_result(r->Some_0@, dictionary@) == Ok::<Seq<u8>, DecodeError>(payload@),
{
    zstd_encode(payload, dictionary)
}

} // verus!
