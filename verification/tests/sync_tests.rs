use adb_rs::AdbError;
use adb_rs::SyncCommand;
use adb_rs::decode_recv_stream;
use adb_rs::encode_le_u32;
use adb_rs::encode_push_stream;
use adb_rs::encode_sync_request;
use adb_rs::parse_framed_payload;
use adb_rs::parse_list_response;
use adb_rs::parse_stat_response;

#[test]
fn sync_request_frames_tag_length_path() {
    let frame = encode_sync_request(SyncCommand::STAT, "/sdcard/x").unwrap();
    let mut expected: Vec<u8> = Vec::new();
    expected.extend_from_slice(b"STAT");
    expected.extend_from_slice(&encode_le_u32(9));
    expected.extend_from_slice(b"/sdcard/x");
    assert_eq!(frame, expected);
    assert_eq!(&encode_sync_request(SyncCommand::LIST, "d").unwrap()[0..4], b"LIST");
    assert_eq!(&encode_sync_request(SyncCommand::SEND, "d").unwrap()[0..4], b"SEND");
    assert_eq!(&encode_sync_request(SyncCommand::RECV, "d").unwrap()[0..4], b"RECV");
}

#[test]
fn stat_response_fields_are_little_endian() {
    let mut resp: Vec<u8> = Vec::new();
    resp.extend_from_slice(&encode_le_u32(0o100644));
    resp.extend_from_slice(&encode_le_u32(4096));
    resp.extend_from_slice(&encode_le_u32(1_600_000_000));
    let info = parse_stat_response("/sdcard/x", &resp);
    assert_eq!(info.path, "/sdcard/x");
    assert_eq!(info.mode, 0o100644);
    assert_eq!(info.size, 4096);
    assert_eq!(info.mtime, 1_600_000_000);
}

#[test]
fn list_response_collects_entries_until_done() {
    let mut resp: Vec<u8> = Vec::new();
    resp.extend_from_slice(b"DENT");
    resp.extend_from_slice(&encode_le_u32(0o040755));
    resp.extend_from_slice(&encode_le_u32(0));
    resp.extend_from_slice(&encode_le_u32(100));
    resp.extend_from_slice(&encode_le_u32(1));
    resp.extend_from_slice(b".");
    resp.extend_from_slice(b"DENT");
    resp.extend_from_slice(&encode_le_u32(0o100644));
    resp.extend_from_slice(&encode_le_u32(42));
    resp.extend_from_slice(&encode_le_u32(200));
    resp.extend_from_slice(&encode_le_u32(9));
    resp.extend_from_slice(b"hello.txt");
    resp.extend_from_slice(b"DONE");
    let entries = parse_list_response(&resp).unwrap();
    assert_eq!(entries.len(), 2);
    assert_eq!(entries[0].path, ".");
    assert_eq!(entries[0].mode, 0o040755);
    assert_eq!(entries[1].path, "hello.txt");
    assert_eq!(entries[1].size, 42);
    assert_eq!(entries[1].mtime, 200);
}

#[test]
fn list_response_short_entry_fails() {
    let mut resp: Vec<u8> = Vec::new();
    resp.extend_from_slice(b"DENT");
    resp.extend_from_slice(&encode_le_u32(0o100644));
    match parse_list_response(&resp) {
        Err(AdbError::ShortRead { expected, got }) => {
            assert_eq!(expected, 16);
            assert_eq!(got, 4);
        }
        _ => panic!("a truncated entry must be a short read"),
    }
}

#[test]
fn recv_declared_length_beyond_bytes_is_short_read() {
    // The server declares a 100-byte chunk but closes after 10 bytes:
    // the pull must fail with a distinct short-read error, never yield a
    // truncated file.
    let mut resp: Vec<u8> = Vec::new();
    resp.extend_from_slice(b"DATA");
    resp.extend_from_slice(&encode_le_u32(100));
    resp.extend_from_slice(&[7u8; 10]);
    match decode_recv_stream("/sdcard/x", &resp) {
        Err(AdbError::ShortRead { expected, got }) => {
            assert_eq!(expected, 100);
            assert_eq!(got, 10);
        }
        _ => panic!("a short chunk must be a short read"),
    }
}

#[test]
fn recv_collects_chunks_until_done() {
    let mut resp: Vec<u8> = Vec::new();
    resp.extend_from_slice(b"DATA");
    resp.extend_from_slice(&encode_le_u32(3));
    resp.extend_from_slice(b"abc");
    resp.extend_from_slice(b"DATA");
    resp.extend_from_slice(&encode_le_u32(2));
    resp.extend_from_slice(b"de");
    resp.extend_from_slice(b"DONE");
    let data = decode_recv_stream("f", &resp).unwrap();
    assert_eq!(data, b"abcde".to_vec());
}

#[test]
fn recv_remote_failure_carries_its_message() {
    let mut resp: Vec<u8> = Vec::new();
    resp.extend_from_slice(b"FAIL");
    resp.extend_from_slice(&encode_le_u32(14));
    resp.extend_from_slice(b"no such file x");
    match decode_recv_stream("/sdcard/x", &resp) {
        Err(AdbError::FileTransferErr { filename, cause }) => {
            assert_eq!(filename, "/sdcard/x");
            assert_eq!(cause, "no such file x");
        }
        _ => panic!("a remote FAIL must surface as a transfer error"),
    }
}

#[test]
fn recv_unknown_code_is_protocol_violation() {
    let resp = b"WHAT".to_vec();
    match decode_recv_stream("f", &resp) {
        Err(AdbError::ProtocolParseError { .. }) => {}
        _ => panic!("an undeclared status code must abort the pull"),
    }
}

/// A fixture sync server for the upload stream: it decodes each
/// host-framed `DATA<decimal length>` header and host-framed chunk pair,
/// acknowledging nothing and keeping the bytes.
fn fixture_receive_push(stream: &[u8]) -> Vec<Vec<u8>> {
    let mut chunks: Vec<Vec<u8>> = Vec::new();
    let mut rest = stream;
    while !rest.is_empty() {
        let (header, used) = parse_framed_payload(rest).unwrap();
        rest = &rest[used..];
        let header = String::from_utf8(header).unwrap();
        assert!(header.starts_with("DATA"));
        let declared: usize = header[4..].parse().unwrap();
        let (chunk, used) = parse_framed_payload(rest).unwrap();
        rest = &rest[used..];
        assert_eq!(chunk.len(), declared);
        chunks.push(chunk);
    }
    chunks
}

#[test]
fn push_then_pull_round_trip() {
    // A known byte sequence, long enough for three chunks of the fixed
    // 4096-byte chunking.
    let data: Vec<u8> = (0..10_000u32).map(|i| (i % 251) as u8).collect();
    let stream = encode_push_stream(&data);

    // Fixture server: take the upload apart, then answer a download of
    // the same bytes in sync framing.
    let chunks = fixture_receive_push(&stream);
    let pushed_total: usize = chunks.iter().map(|c| c.len()).sum();
    assert_eq!(pushed_total, data.len());
    assert_eq!(chunks.len(), 3);
    assert_eq!(chunks[0].len(), 4096);
    assert_eq!(chunks[2].len(), 10_000 - 2 * 4096);

    let mut download: Vec<u8> = Vec::new();
    for chunk in &chunks {
        download.extend_from_slice(b"DATA");
        download.extend_from_slice(&encode_le_u32(chunk.len() as u32));
        download.extend_from_slice(chunk);
    }
    download.extend_from_slice(b"DONE");
    let pulled = decode_recv_stream("f", &download).unwrap();
    assert_eq!(pulled, data);
}

#[test]
fn push_of_empty_file_sends_nothing() {
    let stream = encode_push_stream(&Vec::new());
    assert!(stream.is_empty());
}
