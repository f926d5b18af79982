//! The container frame: magic, declared dictionary length, dictionary bytes.
use vstd::prelude::*;
use crate::codec::{decode, skippable_size, zstd_decode_result};

verus! {

/// Magic number of the container header (a zstd skippable frame).
pub const CONTAINER_MAGIC: [u8; 4] = [0x5D, 0x2A, 0x4D, 0x18];

/// Magic number that opens a raw zstd dictionary.
pub const RAW_DICTIONARY_MAGIC: [u8; 4] = [0x37, 0xA4, 0x30, 0xEC];

/// Magic number that opens a zstd frame, here one holding a dictionary.
pub const COMPRESSED_DICTIONARY_MAGIC: [u8; 4] = [0x28, 0xB5, 0x2F, 0xFD];

/// Largest dictionary length accepted: 64 MiB.
pub const MAX_DICTIONARY_LENGTH: u32 = 67108864;

/// Length of the container header: four bytes of magic, four of length.
pub const HEADER_LENGTH: usize = 8;

/// Why an archive's container frame could not be opened.
#[derive(Debug, Clone, Copy, PartialEq, Eq, Structural)]
pub enum FormatError {
    /// The first four bytes are not the container magic.
    UnsupportedContainer,
    /// The dictionary length is negative, too large, or not all there.
    CorruptDictionaryLength,
    /// The dictionary bytes open with neither known magic.
    UnrecognizedDictionaryFrame,
    /// The compressed dictionary could not be decompressed.
    DictionaryDecodeFailed,
}

/// What the first bytes of a dictionary frame say it holds.
#[derive(Debug, Clone, Copy, PartialEq, Eq, Structural)]
pub enum DictionaryKind {
    Raw,
    Compressed,
    Unrecognized,
}

pub open spec fn has_container_magic(s: Seq<u8>) -> bool {
    s.len() >= 4 && s[0] == 0x5Du8 && s[1] == 0x2Au8 && s[2] == 0x4Du8 && s[3] == 0x18u8
}

pub open spec fn has_raw_dictionary_magic(s: Seq<u8>) -> bool {
    s.len() >= 4 && s[0] == 0x37u8 && s[1] == 0xA4u8 && s[2] == 0x30u8 && s[3] == 0xECu8
}

pub open spec fn has_compressed_dictionary_magic(s: Seq<u8>) -> bool {
    s.len() >= 4 && s[0] == 0x28u8 && s[1] == 0xB5u8 && s[2] == 0x2Fu8 && s[3] == 0xFDu8
}

/// The little-endian signed 32-bit integer held by bytes 4 to 7.
pub open spec fn declared_length(s: Seq<u8>) -> int
    recommends
        s.len() >= 8,
{
    let unsigned = s[4] as int + s[5] as int * 0x100 + s[6] as int * 0x10000 + s[7] as int
        * 0x1000000;
    if s[7] >= 0x80 {
        unsigned - 0x1_0000_0000
    } else {
        unsigned
    }
}

pub open spec fn dictionary_kind_of(frame: Seq<u8>) -> DictionaryKind {
    if has_raw_dictionary_magic(frame) {
        DictionaryKind::Raw
    } else if has_compressed_dictionary_magic(frame) {
        DictionaryKind::Compressed
    } else {
        DictionaryKind::Unrecognized
    }
}

/// The outcome of checking the container header alone: the dictionary length.
pub open spec fn header_outcome(s: Seq<u8>) -> Result<int, FormatError> {
    if !has_container_magic(s) {
        Err(FormatError::UnsupportedContainer)
    } else if s.len() < 8 || declared_length(s) < 0 || declared_length(s)
        > MAX_DICTIONARY_LENGTH as int {
        Err(FormatError::CorruptDictionaryLength)
    } else {
        Ok(declared_length(s))
    }
}

/// Checks the first four bytes of an archive against the container magic.
pub fn check_magic(head: &[u8]) -> (r: Result<(), FormatError>)
    ensures
        r is Ok <==> has_container_magic(head@),
        r is Err ==> r == Err::<(), FormatError>(FormatError::UnsupportedContainer),
{
    if head.len() >= 4 && head[0] == CONTAINER_MAGIC[0] && head[1] == CONTAINER_MAGIC[1]
        && head[2] == CONTAINER_MAGIC[2] && head[3] == CONTAINER_MAGIC[3] {
        Ok(())
    } else {
        Err(FormatError::UnsupportedContainer)
    }
}

/// Reads and bounds the dictionary length from the first eight bytes of an
/// archive.
pub fn read_header(head: &[u8]) -> (r: Result<usize, FormatError>)
    ensures
        match (r, header_outcome(head@)) {
            (Ok(n), Ok(m)) => n as int == m,
            (Err(e), Err(f)) => e == f,
            _ => false,
        },
{
    check_magic(head)?;
    if head.len() < HEADER_LENGTH || head[7] >= 0x80 {
        return Err(FormatError::CorruptDictionaryLength);
    }
    let n: u32 = head[4] as u32 + head[5] as u32 * 0x100 + head[6] as u32 * 0x10000 + head[7] as u32
        * 0x1000000;
    if n > MAX_DICTIONARY_LENGTH {
        return Err(FormatError::CorruptDictionaryLength);
    }
    Ok(n as usize)
}

/// Tells which kind of dictionary a dictionary frame holds.
pub fn classify_dictionary(frame: &[u8]) -> (r: DictionaryKind)
    ensures
        r == dictionary_kind_of(frame@),
{
    if frame.len() < 4 {
        DictionaryKind::Unrecognized
    } else if frame[0] == RAW_DICTIONARY_MAGIC[0] && frame[1] == RAW_DICTIONARY_MAGIC[1]
        && frame[2] == RAW_DICTIONARY_MAGIC[2] && frame[3] == RAW_DICTIONARY_MAGIC[3] {
        DictionaryKind::Raw
    } else if frame[0] == COMPRESSED_DICTIONARY_MAGIC[0] && frame[1]
        == COMPRESSED_DICTIONARY_MAGIC[1] && frame[2] == COMPRESSED_DICTIONARY_MAGIC[2]
        && frame[3] == COMPRESSED_DICTIONARY_MAGIC[3] {
        DictionaryKind::Compressed
    } else {
        DictionaryKind::Unrecognized
    }
}

/// The outcome of resolving a dictionary frame: an empty frame is the empty
/// dictionary, a raw one is used as it stands, a compressed one is what the
/// plain codec (no dictionary) decodes it to, and anything else is refused.
pub open spec fn resolution(frame: Seq<u8>) -> Result<Seq<u8>, FormatError> {
    if frame.len() == 0 {
        Ok(Seq::empty())
    } else {
        match dictionary_kind_of(frame) {
            DictionaryKind::Raw => Ok(frame),
            DictionaryKind::Compressed => match zstd_decode_result(frame, Seq::empty()) {
                Ok(d) => Ok(d),
                Err(_) => Err(FormatError::DictionaryDecodeFailed),
            },
            DictionaryKind::Unrecognized => Err(FormatError::UnrecognizedDictionaryFrame),
        }
    }
}

/// The outcome of opening an archive: the resolved dictionary.
pub open spec fn open_outcome(s: Seq<u8>) -> Result<Seq<u8>, FormatError> {
    match header_outcome(s) {
        Err(e) => Err(e),
        Ok(n) => if s.len() < HEADER_LENGTH + n {
            Err(FormatError::CorruptDictionaryLength)
        } else {
            resolution(s.subrange(HEADER_LENGTH as int, HEADER_LENGTH + n))
        },
    }
}

pub open spec fn view_result(r: Result<Vec<u8>, FormatError>) -> Result<Seq<u8>, FormatError> {
    match r {
        Ok(v) => Ok(v@),
        Err(e) => Err(e),
    }
}

/// Turns a dictionary frame into the raw dictionary, decompressing it with the
/// plain codec where it is compressed.
pub fn resolve_dictionary(frame: &[u8]) -> (r: Result<Vec<u8>, FormatError>)
    ensures
        view_result(r) == resolution(frame@),
{
    if frame.len() == 0 {
        return Ok(Vec::new());
    }
    match classify_dictionary(frame) {
        DictionaryKind::Raw => Ok(vstd::slice::slice_to_vec(frame)),
        DictionaryKind::Compressed => {
            let empty: Vec<u8> = Vec::new();
            assert(empty@ =~= Seq::<u8>::empty());
            match decode(frame, empty.as_slice()) {
                Ok(d) => Ok(d),
                Err(_) => Err(FormatError::DictionaryDecodeFailed),
            }
        },
        DictionaryKind::Unrecognized => Err(FormatError::UnrecognizedDictionaryFrame),
    }
}

/// Opens an archive: checks the container header, reads the dictionary frame
/// and resolves it. The archive itself is left as it is: the codec decodes it
/// from its first byte, skipping the container frame on its own.
pub fn open(source: &[u8]) -> (r: Result<Vec<u8>, FormatError>)
    ensures
        view_result(r) == open_outcome(source@),
        !has_container_magic(source@) ==> r == Err::<Vec<u8>, FormatError>(
            FormatError::UnsupportedContainer,
        ),
{
    let n = read_header(source)?;
    if source.len() - HEADER_LENGTH < n {
        return Err(FormatError::CorruptDictionaryLength);
    }
    let frame = vstd::slice::slice_subrange(source, HEADER_LENGTH, HEADER_LENGTH + n);
    resolve_dictionary(frame)
}

/// Writes an archive: the container header declaring the dictionary frame's
/// length, the dictionary frame, then the compressed payload. Gives `None`
/// where the frame is longer than the largest length accepted.
pub fn frame_container(dictionary_frame: &[u8], payload: &[u8]) -> (r: Option<Vec<u8>>)
    ensures
        r is None <==> dictionary_frame@.len() > MAX_DICTIONARY_LENGTH,
        r is Some ==> r->Some_0@ == container_bytes(dictionary_frame@, payload@),
{
    if dictionary_frame.len() > MAX_DICTIONARY_LENGTH as usize {
        return None;
    }
    let n = dictionary_frame.len();
    let mut out: Vec<u8> = Vec::new();
    out.push(CONTAINER_MAGIC[0]);
    out.push(CONTAINER_MAGIC[1]);
    out.push(CONTAINER_MAGIC[2]);
    out.push(CONTAINER_MAGIC[3]);
    out.push((n % 0x100) as u8);
    out.push((n / 0x100 % 0x100) as u8);
    out.push((n / 0x10000 % 0x100) as u8);
    out.push((n / 0x1000000) as u8);
    out.extend_from_slice(dictionary_frame);
    out.extend_from_slice(payload);
    assert(out@ =~= container_bytes(dictionary_frame@, payload@));
    Some(out)
}

/// The little-endian bytes of a length below 2^31.
pub open spec fn length_bytes(n: nat) -> Seq<u8> {
    seq![
        (n % 0x100) as u8,
        (n / 0x100 % 0x100) as u8,
        (n / 0x10000 % 0x100) as u8,
        (n / 0x1000000) as u8,
    ]
}

/// The bytes of an archive with the given dictionary frame and payload.
pub open spec fn container_bytes(dictionary_frame: Seq<u8>, payload: Seq<u8>) -> Seq<u8> {
    seq![0x5Du8, 0x2Au8, 0x4Du8, 0x18u8] + length_bytes(dictionary_frame.len()) + dictionary_frame
        + payload
}
/// Where the parts of an archive that `frame_container` writes stand.
pub proof fn lemma_container_layout(dictionary_frame: Seq<u8>, payload: Seq<u8>)
    requires
        dictionary_frame.len() <= MAX_DICTIONARY_LENGTH,
    ensures
        ({
            let s = container_bytes(dictionary_frame, payload);
            let n = dictionary_frame.len() as int;
            &&& has_container_magic(s)
            &&& s.len() == HEADER_LENGTH + n + payload.len()
            &&& header_outcome(s) == Ok::<int, FormatError>(n)
            &&& skippable_size(s) == n
            &&& s.subrange(HEADER_LENGTH as int, HEADER_LENGTH + n) == dictionary_frame
            &&& s.subrange(HEADER_LENGTH + n, s.len() as int) == payload
        }),
{
    let s = container_bytes(dictionary_frame, payload);
    let n = dictionary_frame.len();
    let b = length_bytes(n);
    assert(s[4] == b[0] && s[5] == b[1] && s[6] == b[2] && s[7] == b[3]);
    assert(n == (n % 0x100) + (n / 0x100 % 0x100) * 0x100 + (n / 0x10000 % 0x100) * 0x10000 + (n
        / 0x1000000) * 0x1000000) by (nonlinear_arith)
        requires
            n <= 67108864,
    ;
    assert(s.subrange(HEADER_LENGTH as int, HEADER_LENGTH + n) =~= dictionary_frame);
    assert(s.subrange(HEADER_LENGTH + n, s.len() as int) =~= payload);
}

/// Opening what `frame_container` wrote resolves the dictionary frame it was
/// given.
pub proof fn lemma_open_framed(dictionary_frame: Seq<u8>, payload: Seq<u8>)
    requires
        dictionary_frame.len() <= MAX_DICTIONARY_LENGTH,
    ensures
        open_outcome(container_bytes(dictionary_frame, payload)) == resolution(dictionary_frame),
{
    lemma_container_layout(dictionary_frame, payload);
}

/// A raw dictionary and a compressed frame that the plain codec decodes to
/// it both resolve to that dictionary.
pub proof fn lemma_dictionary_paths_agree(raw: Seq<u8>, compressed: Seq<u8>)
    requires
        has_raw_dictionary_magic(raw),
        has_compressed_dictionary_magic(compressed),
        zstd_decode_result(compressed, Seq::empty()) == Ok::<Seq<u8>, crate::codec::DecodeError>(
            raw,
        ),
    ensures
        resolution(raw) == Ok::<Seq<u8>, FormatError>(raw),
        resolution(compressed) == Ok::<Seq<u8>, FormatError>(raw),
{
}

/// A declared dictionary length of zero opens as the empty dictionary.
pub proof fn lemma_empty_dictionary(source: Seq<u8>)
    requires
        has_container_magic(source),
        source.len() >= HEADER_LENGTH,
        declared_length(source) == 0,
    ensures
        open_outcome(source) == Ok::<Seq<u8>, FormatError>(Seq::empty()),
{
}

} // verus!
