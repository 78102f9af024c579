use dvault::ingest::Ingestor;
use dvault::response_code::RestError;

/// Runs a whole transmission (payload plus trailing checksum text) through
/// the ingestor in chunks of the given size.
fn ingest_chunked(
    transmission: &[u8],
    chunk: usize,
) -> (Vec<u8>, Result<(String, i64, String), RestError>) {
    let mut ing = Ingestor::new();
    let mut written: Vec<u8> = Vec::new();
    for part in transmission.chunks(chunk) {
        written.extend_from_slice(&ing.process_chunk(part));
    }
    (written, ing.finish())
}

#[test]
fn round_trip_succeeds_and_yields_same_checksum() {
    // crc32("hello vault") spelled as the trailing checksum text.
    let mut transmission = b"hello vault".to_vec();
    transmission.extend_from_slice(b"c80d49e7");
    let (written, result) = ingest_chunked(&transmission, 5);
    let (crc, size, _mime) = result.expect("a well-trailed stream must verify");
    assert_eq!(crc, "c80d49e7");
    assert_eq!(size, 11);
    assert_eq!(written, b"hello vault".to_vec());
}

#[test]
fn classic_check_value() {
    let mut transmission = b"123456789".to_vec();
    transmission.extend_from_slice(b"cbf43926");
    let (written, result) = ingest_chunked(&transmission, 3);
    let (crc, size, _mime) = result.expect("the classic check value must verify");
    assert_eq!(crc, "cbf43926");
    assert_eq!(size, 9);
    assert_eq!(written, b"123456789".to_vec());
}

#[test]
fn uppercase_trailer_is_accepted() {
    let mut transmission = b"123456789".to_vec();
    transmission.extend_from_slice(b"CBF43926");
    let (_, result) = ingest_chunked(&transmission, 4);
    assert!(result.is_ok());
}

#[test]
fn corrupted_trailer_fails_with_partial_content() {
    let mut transmission = b"hello vault".to_vec();
    transmission.extend_from_slice(b"c80d49e8");
    let (_, result) = ingest_chunked(&transmission, 5);
    assert_eq!(result.unwrap_err(), RestError::PartialContent);
}

#[test]
fn truncated_stream_fails_with_partial_content() {
    let transmission = b"hello vaultc80d49e7";
    let truncated = &transmission[..transmission.len() - 1];
    let mut ing = Ingestor::new();
    ing.process_chunk(truncated);
    assert_eq!(ing.finish().unwrap_err(), RestError::PartialContent);
}

#[test]
fn chunking_does_not_change_content_or_checksum() {
    let mut transmission: Vec<u8> = (0u8..=255).collect();
    transmission.extend_from_slice(b"29058c73");
    let mut reference: Option<(Vec<u8>, String)> = None;
    for chunk in [1usize, 2, 3, 7, 8, 9, 64, 300] {
        let (written, result) = ingest_chunked(&transmission, chunk);
        match result {
            Ok((crc, size, _)) => {
                assert_eq!(size, 256);
                match &reference {
                    Some((w, c)) => {
                        assert_eq!(&written, w);
                        assert_eq!(&crc, c);
                    },
                    None => reference = Some((written, crc)),
                }
            },
            Err(e) => panic!("chunk size {} failed: {:?}", chunk, e),
        }
    }
}

#[test]
fn mime_is_sniffed_from_the_first_chunk() {
    // A PNG signature followed by filler, with its checksum as trailer.
    let mut payload: Vec<u8> = vec![0x89, 0x50, 0x4e, 0x47, 0x0d, 0x0a, 0x1a, 0x0a];
    payload.extend_from_slice(&[0u8; 24]);
    let crc = {
        let mut h = crc32fast::Hasher::new();
        h.update(&payload);
        format!("{:08x}", h.finalize())
    };
    let mut transmission = payload.clone();
    transmission.extend_from_slice(crc.as_bytes());
    let (_, result) = ingest_chunked(&transmission, 16);
    let (_, _, mime) = result.expect("png stream must verify");
    assert_eq!(mime, "image/png");
}

#[test]
fn text_falls_back_to_text_plain() {
    let mut transmission = b"just some plain words".to_vec();
    let crc = {
        let mut h = crc32fast::Hasher::new();
        h.update(b"just some plain words");
        format!("{:08x}", h.finalize())
    };
    transmission.extend_from_slice(crc.as_bytes());
    let (_, result) = ingest_chunked(&transmission, 9);
    let (_, _, mime) = result.expect("text stream must verify");
    assert_eq!(mime, "text/plain");
}

#[test]
fn unrecognized_binary_has_no_type() {
    let payload: Vec<u8> = vec![0xff, 0xfe, 0x01, 0x02, 0x03];
    let mut transmission = payload.clone();
    transmission.extend_from_slice(b"c002080a");
    let (_, result) = ingest_chunked(&transmission, 64);
    let (_, _, mime) = result.expect("binary stream must verify");
    assert_eq!(mime, "");
}
