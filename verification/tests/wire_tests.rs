use adb_rs::AdbConnState;
use adb_rs::AdbError;
use adb_rs::encode_le_u32;
use adb_rs::frame_command;
use adb_rs::frame_payload;
use adb_rs::parse_framed_payload;
use adb_rs::parse_hex_len;
use adb_rs::parse_host_code;
use adb_rs::parse_le_u32;
use adb_rs::parse_sync_code;
use adb_rs::parse_version_payload;
use adb_rs::require_okay;
use adb_rs::u32_to_decimal;
use adb_rs::parse_decimal_u32;

#[test]
fn frame_has_hex_length_prefix() {
    let framed = frame_command("host:version").unwrap();
    assert_eq!(framed, b"000Chost:version".to_vec());
}

#[test]
fn frame_pads_length_with_zeros() {
    let framed = frame_command("sync:").unwrap();
    assert_eq!(framed, b"0005sync:".to_vec());
}

#[test]
fn frame_refuses_oversized_payload() {
    let big = vec![0u8; 0x10000];
    match frame_payload(&big) {
        Err(AdbError::WriteMsgErr { .. }) => {}
        _ => panic!("oversized payload must be refused"),
    }
}

#[test]
fn hex_length_round_trip() {
    let framed = frame_payload(&vec![7u8; 300]).unwrap();
    let n = parse_hex_len(&framed[0..4]).unwrap();
    assert_eq!(n, 300);
}

#[test]
fn hex_length_accepts_lower_case() {
    assert_eq!(parse_hex_len(b"00ff"), Some(255));
    assert_eq!(parse_hex_len(b"00FF"), Some(255));
    assert_eq!(parse_hex_len(b"00G0"), None);
}

#[test]
fn le_u32_round_trip() {
    let bytes = encode_le_u32(0xDEAD_BEEF);
    assert_eq!(bytes, vec![0xEF, 0xBE, 0xAD, 0xDE]);
    assert_eq!(parse_le_u32(&bytes), 0xDEAD_BEEF);
}

#[test]
fn host_code_collapses_unknown_to_fail() {
    assert_eq!(parse_host_code(b"OKAY"), AdbConnState::OKAY);
    assert_eq!(parse_host_code(b"FAIL"), AdbConnState::FAIL);
    assert_eq!(parse_host_code(b"DENT"), AdbConnState::FAIL);
    assert_eq!(parse_host_code(b"????"), AdbConnState::FAIL);
}

#[test]
fn sync_code_keeps_all_five_and_rejects_others() {
    assert_eq!(parse_sync_code(b"OKAY"), Some(AdbConnState::OKAY));
    assert_eq!(parse_sync_code(b"FAIL"), Some(AdbConnState::FAIL));
    assert_eq!(parse_sync_code(b"DENT"), Some(AdbConnState::DENT));
    assert_eq!(parse_sync_code(b"DONE"), Some(AdbConnState::DONE));
    assert_eq!(parse_sync_code(b"DATA"), Some(AdbConnState::DATA));
    assert_eq!(parse_sync_code(b"XXXX"), None);
}

#[test]
fn require_okay_rejects_fail() {
    assert!(require_okay(AdbConnState::OKAY).is_ok());
    match require_okay(AdbConnState::FAIL) {
        Err(AdbError::IoError { .. }) => {}
        _ => panic!("non-OKAY must be a connection-class error"),
    }
}

#[test]
fn version_query_with_fixture_response() {
    // The daemon answers the version query with OKAY and the framed
    // 4-byte string "0029": the version is the decimal integer 29.
    let mut response: Vec<u8> = Vec::new();
    response.extend_from_slice(b"OKAY");
    response.extend_from_slice(b"0004");
    response.extend_from_slice(b"0029");
    assert_eq!(parse_host_code(&response[0..4]), AdbConnState::OKAY);
    let (payload, consumed) = parse_framed_payload(&response[4..]).unwrap();
    assert_eq!(consumed, 8);
    let text = String::from_utf8(payload).unwrap();
    assert_eq!(parse_version_payload(&text).unwrap(), 29);
}

#[test]
fn version_payload_must_be_decimal() {
    match parse_version_payload("00x9") {
        Err(AdbError::ProtocolParseError { .. }) => {}
        _ => panic!("non-decimal version payload must be refused"),
    }
}

#[test]
fn framed_payload_short_read_is_distinct() {
    // Declared length 8, but only 3 payload bytes follow.
    match parse_framed_payload(b"0008abc") {
        Err(AdbError::ShortRead { expected, got }) => {
            assert_eq!(expected, 8);
            assert_eq!(got, 3);
        }
        _ => panic!("short frame must be a short read"),
    }
}

#[test]
fn framed_payload_bad_length_is_parse_error() {
    match parse_framed_payload(b"zzzzabc") {
        Err(AdbError::ProtocolParseError { .. }) => {}
        _ => panic!("bad length field must be a parse error"),
    }
}

#[test]
fn decimal_render_and_parse() {
    assert_eq!(u32_to_decimal(0), "0");
    assert_eq!(u32_to_decimal(29), "29");
    assert_eq!(u32_to_decimal(4_294_967_295), "4294967295");
    assert_eq!(parse_decimal_u32("0029"), Some(29));
    assert_eq!(parse_decimal_u32(""), None);
    assert_eq!(parse_decimal_u32("12a"), None);
    assert_eq!(parse_decimal_u32("4294967295"), Some(4_294_967_295));
    assert_eq!(parse_decimal_u32("4294967296"), None);
}
