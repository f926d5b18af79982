//! A decode session that takes the archive a chunk at a time, so that
//! neither the archive nor its decoded payload has to be held whole.
use vstd::prelude::*;
use crate::codec::DecodeError;

verus! {

#[verifier::external_type_specification]
#[verifier::external_body]
pub struct ExRawDecoder<'a>(zstd::stream::raw::Decoder<'a>);

/// Size of the output buffer that one step of the decoder fills at most.
pub const OUTPUT_CHUNK: usize = 65536;

/// Relies on `zstd::stream::raw::Decoder::with_dictionary`: builds a
/// streaming decoder with `dictionary` loaded, or fails where zstd refuses
/// the dictionary.
#[verifier::external_body]
fn raw_decoder(dictionary: &[u8]) -> (r: Option<zstd::stream::raw::Decoder<'static>>) {
    zstd::stream::raw::Decoder::with_dictionary(dictionary).ok()
}

/// Relies on `zstd::stream::raw::Operation::run_on_buffers` for the decoder:
/// one step that reads part of `input` and writes into `output`. The counts
/// it gives are positions within the two buffers; a `remaining` of zero marks
/// the end of a frame. A codec error fails the step.
#[verifier::external_body]
fn run_decoder(
    decoder: &mut zstd::stream::raw::Decoder<'static>,
    input: &[u8],
    output: &mut Vec<u8>,
) -> (r: Result<(usize, usize, usize), DecodeError>)
    ensures
        final(output)@.len() == old(output)@.len(),
        match r { Ok((read, written, _)) => read <= input@.len() && written <= old(output)@.len(), Err(e) => e == DecodeError::StreamCorrupt },
{
    match zstd::stream::raw::Operation::run_on_buffers(decoder, input, output.as_mut_slice()) {
        Ok(status) => Ok((status.bytes_read, status.bytes_written, status.remaining)),
        Err(_) => Err(DecodeError::StreamCorrupt),
    }
}

/// What one step of a session gives back.
pub struct Step {
    /// How many bytes of the input were taken; the rest is to be offered again.
    pub consumed: usize,
    /// The decoded bytes written in this step.
    pub output: Vec<u8>,
    /// Whether the output buffer was filled, so that more output may be
    /// pending even with no new input.
    pub output_full: bool,
}

/// A dictionary-seeded decode of one archive, fed a chunk at a time from
/// its first byte.
pub struct DecodeSession {
    decoder: zstd::stream::raw::Decoder<'static>,
    fed_any: bool,
    at_frame_end: bool,
}

impl DecodeSession {
    /// Whether any input has been taken.
    pub closed spec fn has_input(&self) -> bool {
        self.fed_any
    }

    /// Whether the last step ended exactly at the end of a frame.
    pub closed spec fn at_frame_boundary(&self) -> bool {
        self.at_frame_end
    }

    /// Starts a session with the dictionary loaded.
    pub fn new(dictionary: &[u8]) -> (r: Result<DecodeSession, DecodeError>)
        ensures
            r matches Err(e) ==> e == DecodeError::DictionaryRejected,
            r matches Ok(s) ==> !s.has_input() && !s.at_frame_boundary(),
    {
        match raw_decoder(dictionary) {
            Some(decoder) => Ok(DecodeSession { decoder, fed_any: false, at_frame_end: false }),
            None => Err(DecodeError::DictionaryRejected),
        }
    }

    /// Runs one decode step on `input`: takes some of it and gives back up to
    /// one output buffer of decoded bytes.
    pub fn step(&mut self, input: &[u8]) -> (r: Result<Step, DecodeError>)
        ensures
            match r {
                Ok(st) => {
                    &&& st.consumed <= input@.len()
                    &&& st.output@.len() <= OUTPUT_CHUNK
                    &&& st.output_full == (st.output@.len() == OUTPUT_CHUNK)
                    &&& final(self).has_input() == (old(self).has_input() || st.consumed > 0)
                },
                Err(e) => e == DecodeError::StreamCorrupt,
            },
    {
        let mut buffer: Vec<u8> = vec![0u8; OUTPUT_CHUNK];
        let (read, written, remaining) = run_decoder(&mut self.decoder, input, &mut buffer)?;
        let mut output: Vec<u8> = Vec::new();
        let mut i: usize = 0;
        while i < written
            invariant
                written <= buffer@.len(),
                i <= written,
                output@ == buffer@.subrange(0, i as int),
            decreases written - i,
        {
            output.push(buffer[i]);
            i = i + 1;
        }
        if read > 0 {
            self.fed_any = true;
            self.at_frame_end = remaining == 0;
        } else if written > 0 {
            self.at_frame_end = remaining == 0;
        }
        Ok(Step { consumed: read, output, output_full: written == OUTPUT_CHUNK })
    }

    /// Ends the session once the input is used up and no output is pending:
    /// the stream must have ended at the end of a frame, else it was cut short.
    pub fn finish(&self) -> (r: Result<(), DecodeError>)
        ensures
            r is Ok <==> self.has_input() && self.at_frame_boundary(),
            r matches Err(e) ==> e == DecodeError::Truncated,
    {
        if self.fed_any && self.at_frame_end {
            Ok(())
        } else {
            Err(DecodeError::Truncated)
        }
    }
}

} // verus!
