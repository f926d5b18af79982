use warc_zstd_index::archive::{read_archive, ArchiveError};
use warc_zstd_index::codec::{decode, encode, DecodeError};
use warc_zstd_index::container::{
    check_magic, classify_dictionary, frame_container, open, read_header, resolve_dictionary,
    DictionaryKind, FormatError,
};
use warc_zstd_index::record::ParseError;
use warc_zstd_index::session::DecodeSession;
use warc_zstd_index::stream::{index_fields, RecordStream};

const RAW_DICT: [u8; 4] = [0x37, 0xA4, 0x30, 0xEC];

fn record_bytes(uri: &str, body: &[u8]) -> Vec<u8> {
    let mut out = Vec::new();
    out.extend_from_slice(b"WARC/1.0\r\n");
    out.extend_from_slice(b"WARC-Type: response\r\n");
    out.extend_from_slice(format!("WARC-Target-URI: {}\r\n", uri).as_bytes());
    out.extend_from_slice(format!("Content-Length: {}\r\n", body.len()).as_bytes());
    out.extend_from_slice(b"\r\n");
    out.extend_from_slice(body);
    out.extend_from_slice(b"\r\n\r\n");
    out
}

fn two_record_payload() -> Vec<u8> {
    let mut p = record_bytes("http://a.example/", b"<html>first</html>");
    p.extend(record_bytes("http://b.example/", b"second body"));
    p
}

fn archive(dictionary_frame: &[u8], dictionary: &[u8], plain: &[u8]) -> Vec<u8> {
    let compressed = encode(plain, dictionary).expect("encode");
    frame_container(dictionary_frame, &compressed).expect("frame")
}

#[test]
fn synthetic_archive_yields_two_records_in_order() {
    let payload = two_record_payload();
    let bytes = archive(&RAW_DICT, &RAW_DICT, &payload);
    assert_eq!(&bytes[..8], &[0x5D, 0x2A, 0x4D, 0x18, 4, 0, 0, 0]);
    assert_eq!(open(&bytes), Ok(RAW_DICT.to_vec()));
    let mut stream = read_archive(&bytes).expect("archive opens");
    let first = stream.next_record().unwrap().unwrap();
    let second = stream.next_record().unwrap().unwrap();
    assert!(stream.next_record().is_none());
    assert_eq!(first.body, b"<html>first</html>".to_vec());
    assert_eq!(second.body, b"second body".to_vec());
    assert_eq!(first.header(b"WARC-Target-URI"), Some(b"http://a.example/".to_vec()));
    assert_eq!(second.header(b"WARC-Target-URI"), Some(b"http://b.example/".to_vec()));
    assert_eq!(first.version, b"1.0".to_vec());
    assert_eq!(first.content_length(), 18);
    assert_eq!(stream.total_seen(), 2);
    assert_eq!(stream.successfully_parsed(), 2);
    assert_eq!(stream.parse_failures(), 0);
    assert!(stream.finished());
}

#[test]
fn truncated_payload_reports_truncated_body() {
    let mut payload = two_record_payload();
    payload.truncate(payload.len() - 8);
    let bytes = archive(&RAW_DICT, &RAW_DICT, &payload);
    let mut stream = read_archive(&bytes).expect("archive opens");
    assert!(matches!(stream.next_record(), Some(Ok(_))));
    assert!(matches!(stream.next_record(), Some(Err(ParseError::TruncatedBody))));
    assert!(stream.next_record().is_none());
    assert_eq!(stream.total_seen(), 2);
    assert_eq!(stream.successfully_parsed(), 1);
    assert_eq!(stream.parse_failures(), 1);
    assert!(stream.finished());
}

#[test]
fn negative_dictionary_length_is_corrupt() {
    let mut bytes = archive(&RAW_DICT, &RAW_DICT, &two_record_payload());
    bytes[4..8].copy_from_slice(&(-1i32).to_le_bytes());
    assert_eq!(open(&bytes), Err(FormatError::CorruptDictionaryLength));
    assert_eq!(read_header(&bytes), Err(FormatError::CorruptDictionaryLength));
    assert!(matches!(
        read_archive(&bytes),
        Err(ArchiveError::Format(FormatError::CorruptDictionaryLength))
    ));
}

#[test]
fn wrong_magic_is_unsupported() {
    assert_eq!(open(&[0x28, 0xB5, 0x2F, 0xFD, 4, 0, 0, 0]), Err(FormatError::UnsupportedContainer));
    assert_eq!(open(&[0x5D, 0x2A, 0x4D]), Err(FormatError::UnsupportedContainer));
    assert_eq!(open(&[]), Err(FormatError::UnsupportedContainer));
    assert_eq!(check_magic(&[0x5D, 0x2A, 0x4D, 0x19]), Err(FormatError::UnsupportedContainer));
    assert_eq!(check_magic(&[0x5D, 0x2A, 0x4D, 0x18]), Ok(()));
}

#[test]
fn oversized_or_missing_dictionary_is_corrupt() {
    assert_eq!(
        read_header(&[0x5D, 0x2A, 0x4D, 0x18, 1, 0, 0, 4]),
        Err(FormatError::CorruptDictionaryLength)
    );
    assert_eq!(read_header(&[0x5D, 0x2A, 0x4D, 0x18, 0, 0, 0, 4]), Ok(67108864));
    assert_eq!(read_header(&[0x5D, 0x2A, 0x4D, 0x18, 0x10, 0x02, 0, 0]), Ok(528));
    assert_eq!(read_header(&[0x5D, 0x2A, 0x4D, 0x18, 4]), Err(FormatError::CorruptDictionaryLength));
    assert_eq!(
        open(&[0x5D, 0x2A, 0x4D, 0x18, 8, 0, 0, 0, 0x37, 0xA4]),
        Err(FormatError::CorruptDictionaryLength)
    );
}

#[test]
fn zero_length_dictionary_decodes_plain_payload() {
    let payload = two_record_payload();
    let bytes = archive(&[], &[], &payload);
    assert_eq!(read_header(&bytes), Ok(0));
    assert_eq!(open(&bytes), Ok(Vec::new()));
    let mut stream = read_archive(&bytes).expect("archive opens");
    assert!(matches!(stream.next_record(), Some(Ok(_))));
    assert!(matches!(stream.next_record(), Some(Ok(_))));
    assert!(stream.next_record().is_none());
}

#[test]
fn raw_and_compressed_dictionary_frames_agree() {
    let payload = two_record_payload();
    let compressed_dict = encode(&RAW_DICT, &[]).expect("encode dictionary");
    assert_eq!(classify_dictionary(&compressed_dict), DictionaryKind::Compressed);
    assert_eq!(resolve_dictionary(&compressed_dict), Ok(RAW_DICT.to_vec()));
    assert_eq!(resolve_dictionary(&RAW_DICT), Ok(RAW_DICT.to_vec()));
    let raw_archive = archive(&RAW_DICT, &RAW_DICT, &payload);
    let comp_archive = archive(&compressed_dict, &RAW_DICT, &payload);
    assert_eq!(open(&raw_archive), open(&comp_archive));
    let d = open(&comp_archive).unwrap();
    assert_eq!(decode(&raw_archive, &d), Ok(payload.clone()));
    assert_eq!(decode(&comp_archive, &d), Ok(payload));
}

#[test]
fn codec_round_trip() {
    let payload = two_record_payload();
    let dictionaries: [&[u8]; 3] = [&[], &RAW_DICT, b"WARC/1.0\r\nContent-Length: "];
    for d in dictionaries {
        let c = encode(&payload, d).expect("encode");
        assert_ne!(c, payload);
        assert_eq!(&c[..4], &[0x28, 0xB5, 0x2F, 0xFD]);
        assert_eq!(decode(&c, d), Ok(payload.clone()));
    }
    let empty = encode(&[], &[]).expect("encode");
    assert_eq!(decode(&empty, &[]), Ok(Vec::new()));
}

#[test]
fn dictionary_frame_kinds() {
    assert_eq!(classify_dictionary(&RAW_DICT), DictionaryKind::Raw);
    assert_eq!(classify_dictionary(&[1, 2, 3, 4]), DictionaryKind::Unrecognized);
    assert_eq!(classify_dictionary(&[0x37, 0xA4]), DictionaryKind::Unrecognized);
    assert_eq!(resolve_dictionary(&[1, 2, 3, 4]), Err(FormatError::UnrecognizedDictionaryFrame));
    assert_eq!(resolve_dictionary(&[]), Ok(Vec::new()));
    assert_eq!(
        resolve_dictionary(&[0x28, 0xB5, 0x2F, 0xFD, 0xFF, 0xFF, 0xFF, 0xFF, 0xFF]),
        Err(FormatError::DictionaryDecodeFailed)
    );
    let bytes = frame_container(&[9, 9, 9, 9, 9], &[]).unwrap();
    assert_eq!(open(&bytes), Err(FormatError::UnrecognizedDictionaryFrame));
}

#[test]
fn truncated_or_corrupt_stream_fails_to_decode() {
    let payload = two_record_payload();
    let bytes = archive(&RAW_DICT, &RAW_DICT, &payload);
    let cut = &bytes[..bytes.len() - 3];
    assert!(matches!(read_archive(cut), Err(ArchiveError::Decode(DecodeError::Truncated))));
    let mut bad = bytes.clone();
    bad.extend_from_slice(&[0x28, 0xB5, 0x2F, 0xFD, 0x08]);
    bad.extend_from_slice(&[0u8; 24]);
    assert!(matches!(read_archive(&bad), Err(ArchiveError::Decode(DecodeError::StreamCorrupt))));
}

#[test]
fn malformed_headers_are_reported() {
    let cases: Vec<Vec<u8>> = vec![
        b"HTTP/1.1 200 OK\r\n\r\n".to_vec(),
        b"WARC/1.0\r\n\r\n".to_vec(),
        b"WARC/1.0\r\nContent-Length: 0\r\n".to_vec(),
        b"WARC/1.0\r\nbad line\r\n\r\n\r\n\r\n".to_vec(),
        b"WARC/1.0\r\nA: 1\r\nA: 2\r\n\r\n\r\n\r\n".to_vec(),
        b"WARC/1.0\r\nContent-Length: x1\r\n\r\n\r\n\r\n".to_vec(),
        b"WARC/1.0\r\nContent-Length: 99999999999999999999999\r\n\r\n\r\n\r\n".to_vec(),
        b"WARC/1.0\r\nContent-Length: 2\r\n\r\nabXXXX".to_vec(),
    ];
    for data in cases {
        let mut stream = RecordStream::new(data);
        assert!(matches!(stream.next_record(), Some(Err(ParseError::MalformedHeader))));
        assert!(stream.next_record().is_none());
        assert_eq!(stream.total_seen(), 1);
        assert_eq!(stream.parse_failures(), 1);
    }
}

#[test]
fn header_fields_parse() {
    let data = b"WARC/1.1\r\ncontent-LENGTH :\t3\r\nX-Empty:\r\n\r\nabc\r\n\r\nWARC/\r\nK: v\r\n\r\n\r\n\r\n"
        .to_vec();
    let mut stream = RecordStream::new(data);
    let r = stream.next_record().unwrap().unwrap();
    assert_eq!(r.body, b"abc".to_vec());
    assert_eq!(r.headers.len(), 2);
    assert_eq!(r.headers[0].name, b"content-LENGTH".to_vec());
    assert_eq!(r.headers[0].value, b"3".to_vec());
    assert_eq!(r.header(b"X-Empty"), Some(Vec::new()));
    assert_eq!(r.header(b"Missing"), None);
    let r2 = stream.next_record().unwrap().unwrap();
    assert_eq!(r2.version, Vec::<u8>::new());
    assert_eq!(r2.body, Vec::<u8>::new());
    assert!(stream.next_record().is_none());
    assert_eq!(stream.total_seen(), 2);
}

#[test]
fn counters_and_index_selection() {
    let mut data = record_bytes("http://a.example/", b"one");
    data.extend_from_slice(b"WARC/1.0\r\nWARC-Type: request\r\nContent-Length: 3\r\n\r\ntwo\r\n\r\n");
    let mut stream = RecordStream::new(data);
    let first = stream.next_record().unwrap().unwrap();
    let fields = index_fields(&first).expect("has a target");
    assert_eq!(fields.title, b"http://a.example/".to_vec());
    assert_eq!(fields.body, b"one".to_vec());
    let second = stream.next_record().unwrap().unwrap();
    assert!(index_fields(&second).is_none());
    stream.mark_skipped();
    assert!(stream.next_record().is_none());
    assert_eq!(stream.total_seen(), 2);
    assert_eq!(stream.skipped(), 1);
    assert!(stream.skipped() <= stream.total_seen());
    assert_eq!(stream.total_seen(), stream.successfully_parsed() + stream.parse_failures());
}

#[test]
fn empty_data_has_no_records() {
    let mut stream = RecordStream::new(Vec::new());
    assert!(stream.next_record().is_none());
    assert_eq!(stream.total_seen(), 0);
    assert!(stream.finished());
}

struct StreamRun {
    bodies: Vec<Vec<u8>>,
    failure: Option<ParseError>,
    decode: Result<(), DecodeError>,
    total_seen: usize,
}

fn run_streaming(bytes: &[u8], chunk: usize) -> StreamRun {
    let n = read_header(bytes).expect("header");
    let dictionary = resolve_dictionary(&bytes[8..8 + n]).expect("dictionary");
    let mut session = DecodeSession::new(&dictionary).expect("session");
    let mut stream = RecordStream::incremental();
    let mut run = StreamRun { bodies: Vec::new(), failure: None, decode: Ok(()), total_seen: 0 };
    let mut drain = |stream: &mut RecordStream, run: &mut StreamRun| {
        while let Some(r) = stream.next_record() {
            match r {
                Ok(rec) => run.bodies.push(rec.body),
                Err(e) => run.failure = Some(e),
            }
        }
    };
    for piece in bytes.chunks(chunk) {
        let mut offset = 0;
        loop {
            let step = match session.step(&piece[offset..]) {
                Ok(s) => s,
                Err(e) => {
                    run.decode = Err(e);
                    return run;
                }
            };
            offset += step.consumed;
            stream.feed(&step.output);
            drain(&mut stream, &mut run);
            if offset == piece.len() && !step.output_full {
                break;
            }
        }
    }
    run.decode = session.finish();
    stream.close();
    drain(&mut stream, &mut run);
    run.total_seen = stream.total_seen();
    run
}

#[test]
fn streaming_yields_records_in_order() {
    let payload = two_record_payload();
    let bytes = archive(&RAW_DICT, &RAW_DICT, &payload);
    for chunk in [1, 7, 64, 100000] {
        let run = run_streaming(&bytes, chunk);
        assert_eq!(run.decode, Ok(()));
        assert_eq!(run.failure, None);
        assert_eq!(run.bodies, vec![b"<html>first</html>".to_vec(), b"second body".to_vec()]);
        assert_eq!(run.total_seen, 2);
    }
}

#[test]
fn streaming_reports_truncated_body() {
    let mut payload = two_record_payload();
    payload.truncate(payload.len() - 8);
    let bytes = archive(&RAW_DICT, &RAW_DICT, &payload);
    let run = run_streaming(&bytes, 5);
    assert_eq!(run.decode, Ok(()));
    assert_eq!(run.bodies, vec![b"<html>first</html>".to_vec()]);
    assert_eq!(run.failure, Some(ParseError::TruncatedBody));
    assert_eq!(run.total_seen, 2);
}

#[test]
fn streaming_reports_truncated_stream() {
    let bytes = archive(&RAW_DICT, &RAW_DICT, &two_record_payload());
    let run = run_streaming(&bytes[..bytes.len() - 3], 16);
    assert_eq!(run.decode, Err(DecodeError::Truncated));
}

#[test]
fn streaming_with_compressed_dictionary_frame() {
    let payload = two_record_payload();
    let compressed_dict = encode(&RAW_DICT, &[]).expect("encode dictionary");
    let bytes = archive(&compressed_dict, &RAW_DICT, &payload);
    let run = run_streaming(&bytes, 3);
    assert_eq!(run.decode, Ok(()));
    assert_eq!(run.bodies.len(), 2);
}

#[test]
fn streaming_reports_corrupt_stream() {
    let mut bytes = archive(&RAW_DICT, &RAW_DICT, &two_record_payload());
    bytes.extend_from_slice(&[0x28, 0xB5, 0x2F, 0xFD, 0x08]);
    bytes.extend_from_slice(&[0u8; 24]);
    let run = run_streaming(&bytes, 16);
    assert_eq!(run.decode, Err(DecodeError::StreamCorrupt));
}
