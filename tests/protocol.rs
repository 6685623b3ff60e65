use fileserve::error::ServeError;
use fileserve::request::{check_name, is_safe_name, locate, parse_request, resolve, MAX_REQUEST_SIZE};
use fileserve::sender::{chunk_count, encode_count, ChunkSender, Phase, Step, CHUNK_SIZE};

/// Runs a sender over `file`, with every write succeeding, and returns the
/// header and the chunks it wrote, and whether it ended with `Finish`.
fn stream(file: &[u8]) -> (Vec<u8>, Vec<Vec<u8>>, bool) {
    let mut sender = ChunkSender::new();
    let mut step = sender.on_metadata(Some(file.len() as u64));
    let header = match step {
        Step::Write(ref h) => h.clone(),
        ref other => panic!("unexpected step {:?}", other),
    };
    step = sender.on_written(true);
    let mut pos = 0usize;
    let mut chunks = Vec::new();
    loop {
        match step {
            Step::Read(max) => {
                let end = std::cmp::min(file.len(), pos + max);
                let piece = file[pos..end].to_vec();
                pos = end;
                step = sender.on_read(piece);
            }
            Step::Write(bytes) => {
                chunks.push(bytes);
                step = sender.on_written(true);
            }
            Step::Finish => return (header, chunks, true),
            Step::Fail(_) => return (header, chunks, false),
        }
    }
}

#[test]
fn chunk_count_rounds_up() {
    assert_eq!(chunk_count(0), 0);
    assert_eq!(chunk_count(1), 1);
    assert_eq!(chunk_count(1023), 1);
    assert_eq!(chunk_count(1024), 1);
    assert_eq!(chunk_count(1025), 2);
    assert_eq!(chunk_count(2048), 2);
    assert_eq!(chunk_count(u64::MAX), u64::MAX / 1024 + 1);
}

#[test]
fn header_is_big_endian() {
    assert_eq!(encode_count(0), vec![0u8; 8]);
    assert_eq!(encode_count(2), vec![0, 0, 0, 0, 0, 0, 0, 2]);
    assert_eq!(encode_count(0x0102030405060708), vec![1, 2, 3, 4, 5, 6, 7, 8]);
    assert_eq!(encode_count(u64::MAX), vec![0xff; 8]);
}

#[test]
fn empty_file_sends_zero_count_then_end() {
    let mut sender = ChunkSender::new();
    assert_eq!(sender.on_metadata(Some(0)), Step::Write(vec![0u8; 8]));
    assert_eq!(sender.count(), 0);
    assert_eq!(sender.on_written(true), Step::Read(1024));
    assert_eq!(sender.on_read(Vec::new()), Step::Finish);
    assert_eq!(sender.phase(), Phase::Closed);
}

#[test]
fn file_of_one_full_chunk() {
    let file = vec![7u8; 1024];
    let (header, chunks, finished) = stream(&file);
    assert_eq!(header, vec![0, 0, 0, 0, 0, 0, 0, 1]);
    assert_eq!(chunks.len(), 1);
    assert_eq!(chunks[0].len(), 1024);
    assert!(finished);
}

#[test]
fn file_one_byte_over_a_chunk() {
    let file: Vec<u8> = (0..1025u32).map(|i| (i % 251) as u8).collect();
    let (header, chunks, finished) = stream(&file);
    assert_eq!(header, vec![0, 0, 0, 0, 0, 0, 0, 2]);
    assert_eq!(chunks.len(), 2);
    assert_eq!(chunks[0].len(), 1024);
    assert_eq!(chunks[1], vec![file[1024]]);
    assert!(finished);
}

#[test]
fn chunks_reassemble_the_file() {
    for size in [0usize, 1, 1000, 1024, 3000, 4096, 5121] {
        let file: Vec<u8> = (0..size).map(|i| (i * 31 % 256) as u8).collect();
        let (header, chunks, finished) = stream(&file);
        let count = (size as u64 + CHUNK_SIZE - 1) / CHUNK_SIZE;
        assert_eq!(header, count.to_be_bytes().to_vec());
        assert_eq!(chunks.len() as u64, count);
        assert!(chunks.iter().all(|c| !c.is_empty() && c.len() <= 1024));
        assert_eq!(chunks.iter().map(|c| c.len()).sum::<usize>(), size);
        assert_eq!(chunks.concat(), file);
        assert!(finished);
    }
}

#[test]
fn metadata_failure_sends_no_header() {
    let mut sender = ChunkSender::new();
    let step = sender.on_metadata(None);
    assert_eq!(step, Step::Fail(ServeError::Metadata));
    assert_eq!(sender.phase(), Phase::Closed);
    assert_eq!(ServeError::Metadata.message(), "Err: Failed to get file metadata");
}

#[test]
fn failed_header_write_ends_stream() {
    let mut sender = ChunkSender::new();
    sender.on_metadata(Some(10));
    assert_eq!(sender.on_written(false), Step::Finish);
    assert_eq!(sender.phase(), Phase::Closed);
    assert_eq!(sender.on_read(vec![1, 2]), Step::Finish);
}

#[test]
fn failed_chunk_write_stops_sending() {
    let mut sender = ChunkSender::new();
    sender.on_metadata(Some(2000));
    sender.on_written(true);
    assert_eq!(sender.on_read(vec![9u8; 1024]), Step::Write(vec![9u8; 1024]));
    assert_eq!(sender.on_written(false), Step::Finish);
    assert_eq!(sender.phase(), Phase::Closed);
}

#[test]
fn failed_file_read_is_reported() {
    let mut sender = ChunkSender::new();
    sender.on_metadata(Some(5));
    sender.on_written(true);
    let step = sender.on_read_failed("disk gone".to_string());
    assert_eq!(step, Step::Fail(ServeError::FileRead("disk gone".to_string())));
    assert_eq!(
        ServeError::FileRead("disk gone".to_string()).message(),
        "Err: Failed to read from file: disk gone"
    );
}

#[test]
fn report_out_of_turn_closes() {
    let mut sender = ChunkSender::new();
    assert_eq!(sender.on_read(vec![1]), Step::Finish);
    assert_eq!(sender.phase(), Phase::Closed);
    assert_eq!(sender.on_metadata(Some(3)), Step::Finish);
}

#[test]
fn names_with_separator_or_parent_are_refused() {
    for name in ["a/b", "/etc/passwd", "..", "../x", "a..b", "x/", "..."] {
        assert!(!is_safe_name(name), "{}", name);
        assert_eq!(check_name(name.to_string()), Err(ServeError::InvalidFile(name.to_string())));
        assert_eq!(
            parse_request(name.as_bytes()),
            Err(ServeError::InvalidFile(name.to_string()))
        );
        assert!(locate("/srv", name.as_bytes()).is_err());
    }
}

#[test]
fn plain_names_are_accepted() {
    for name in ["file.txt", "a.b.c", ".hidden", "x.", "", "résumé.pdf"] {
        assert!(is_safe_name(name), "{}", name);
        assert_eq!(parse_request(name.as_bytes()), Ok(name.to_string()));
    }
}

#[test]
fn invalid_utf8_is_replaced() {
    assert_eq!(parse_request(&[0xff, b'a']), Ok("\u{FFFD}a".to_string()));
    assert_eq!(
        parse_request(&[b'.', 0xff, b'.', b'/']),
        Err(ServeError::InvalidFile(".\u{FFFD}./".to_string()))
    );
}

#[test]
fn oversized_request_is_refused() {
    let big = vec![b'a'; MAX_REQUEST_SIZE + 1];
    assert_eq!(parse_request(&big), Err(ServeError::TooLarge(501)));
    assert_eq!(locate("/srv", &big), Err(ServeError::TooLarge(501)));
    assert_eq!(
        ServeError::TooLarge(501).message(),
        "Err: Request size is too large: 501"
    );
    let traversal = vec![b'/'; 512];
    assert_eq!(parse_request(&traversal), Err(ServeError::TooLarge(512)));
    let limit = vec![b'a'; MAX_REQUEST_SIZE];
    assert_eq!(parse_request(&limit), Ok("a".repeat(500)));
}

#[test]
fn resolved_path_is_under_root() {
    assert_eq!(resolve("/srv/files", "a.txt"), "/srv/files/a.txt");
    assert_eq!(resolve("/srv/files/", "a.txt"), "/srv/files/a.txt");
    assert_eq!(locate("/srv", b"notes.md"), Ok("/srv/notes.md".to_string()));
}

#[test]
fn error_messages_name_the_cause() {
    assert_eq!(
        ServeError::RequestRead("reset".to_string()).message(),
        "Err: Failed to read from tcp stream: reset"
    );
    assert_eq!(ServeError::TooLarge(0).message(), "Err: Request size is too large: 0");
    assert_eq!(ServeError::InvalidFile("../x".to_string()).message(), "Invalid file ../x");
    assert_eq!(
        ServeError::Open("not found".to_string()).message(),
        "Err: Failed to open file: not found"
    );
}

#[test]
fn senders_do_not_share_state() {
    let mut first = ChunkSender::new();
    first.on_metadata(Some(5000));
    first.on_written(false);
    let (header, chunks, finished) = stream(b"hello");
    assert_eq!(header, vec![0, 0, 0, 0, 0, 0, 0, 1]);
    assert_eq!(chunks, vec![b"hello".to_vec()]);
    assert!(finished);
    let second = ChunkSender::new();
    assert_eq!(second.phase(), Phase::Measuring);
    assert_eq!(second.count(), 0);
}
