//! Host-command framing and the shared wire status code.
//!
//! A host command travels as `[4 ASCII-hex length bytes][payload]`; status
//! replies are 4 ASCII bytes (`OKAY`, `FAIL`, and, inside the sync
//! sub-protocol, `DENT`, `DONE`, `DATA`). The sync layer uses 4-byte
//! little-endian integers instead of the ASCII-hex form.

use vstd::prelude::*;
use vstd::string::StrSliceExecFns;
use vstd::string::StringExecFns;
use vstd::string::StringSliceAdditionalSpecFns;

use crate::errors::AdbError;

verus! {

/// Connection state code: 4 ASCII bytes on the wire.
///
/// `OKAY` and `FAIL` apply to both protocol layers; `DENT`, `DONE` and
/// `DATA` occur only inside the sync sub-protocol. In host-command context
/// every unrecognized code collapses to `FAIL`; in sync context an
/// unrecognized code is a protocol violation and must fail the operation.
#[derive(Debug, Clone, Copy, PartialEq, Eq, Structural)]
pub enum AdbConnState {
    OKAY,
    FAIL,
    DENT,
    DONE,
    DATA,
}

/// The 4 ASCII bytes that a status code puts on the wire.
pub open spec fn code_bytes(s: AdbConnState) -> Seq<u8> {
    match s {
        AdbConnState::OKAY => seq![79u8, 75u8, 65u8, 89u8],
        AdbConnState::FAIL => seq![70u8, 65u8, 73u8, 76u8],
        AdbConnState::DENT => seq![68u8, 69u8, 78u8, 84u8],
        AdbConnState::DONE => seq![68u8, 79u8, 78u8, 69u8],
        AdbConnState::DATA => seq![68u8, 65u8, 84u8, 65u8],
    }
}

/// How a host-command context reads a 4-byte status: `OKAY` stands,
/// anything else collapses to `FAIL`.
pub open spec fn host_code_of(b: Seq<u8>) -> AdbConnState {
    if b == code_bytes(AdbConnState::OKAY) {
        AdbConnState::OKAY
    } else {
        AdbConnState::FAIL
    }
}

/// How the sync sub-protocol reads a 4-byte status: each of the five codes
/// for itself, and anything else as a protocol violation.
pub open spec fn sync_code_of(b: Seq<u8>) -> Option<AdbConnState> {
    if b == code_bytes(AdbConnState::OKAY) {
        Some(AdbConnState::OKAY)
    } else if b == code_bytes(AdbConnState::FAIL) {
        Some(AdbConnState::FAIL)
    } else if b == code_bytes(AdbConnState::DENT) {
        Some(AdbConnState::DENT)
    } else if b == code_bytes(AdbConnState::DONE) {
        Some(AdbConnState::DONE)
    } else if b == code_bytes(AdbConnState::DATA) {
        Some(AdbConnState::DATA)
    } else {
        None
    }
}

impl AdbConnState {
    /// The wire form of this code, as the 4 bytes it sends.
    pub fn to_wire(self) -> (r: Vec<u8>)
        ensures
            r@ == code_bytes(self),
    {
        match self {
            AdbConnState::OKAY => vec![79u8, 75u8, 65u8, 89u8],
            AdbConnState::FAIL => vec![70u8, 65u8, 73u8, 76u8],
            AdbConnState::DENT => vec![68u8, 69u8, 78u8, 84u8],
            AdbConnState::DONE => vec![68u8, 79u8, 78u8, 69u8],
            AdbConnState::DATA => vec![68u8, 65u8, 84u8, 65u8],
        }
    }
}

/// Whether two 4-byte regions hold the same bytes.
fn eq4(b: &[u8], c: &Vec<u8>) -> (r: bool)
    requires
        b@.len() == 4,
        c@.len() == 4,
    ensures
        r <==> b@ == c@,
{
    let r = b[0] == c[0] && b[1] == c[1] && b[2] == c[2] && b[3] == c[3];
    proof {
        if r {
            assert(b@ =~= c@);
        }
    }
    r
}

/// Reads a 4-byte status in host-command context: `OKAY` stands, any other
/// value collapses to `FAIL`.
pub fn parse_host_code(b: &[u8]) -> (r: AdbConnState)
    requires
        b@.len() == 4,
    ensures
        r == host_code_of(b@),
{
    if eq4(b, &AdbConnState::OKAY.to_wire()) {
        AdbConnState::OKAY
    } else {
        AdbConnState::FAIL
    }
}

/// Reads a 4-byte status in sync context: any value other than the five
/// codes is a protocol violation, reported as `None`.
pub fn parse_sync_code(b: &[u8]) -> (r: Option<AdbConnState>)
    requires
        b@.len() == 4,
    ensures
        r == sync_code_of(b@),
{
    if eq4(b, &AdbConnState::OKAY.to_wire()) {
        Some(AdbConnState::OKAY)
    } else if eq4(b, &AdbConnState::FAIL.to_wire()) {
        Some(AdbConnState::FAIL)
    } else if eq4(b, &AdbConnState::DENT.to_wire()) {
        Some(AdbConnState::DENT)
    } else if eq4(b, &AdbConnState::DONE.to_wire()) {
        Some(AdbConnState::DONE)
    } else if eq4(b, &AdbConnState::DATA.to_wire()) {
        Some(AdbConnState::DATA)
    } else {
        None
    }
}

/// Requires `OKAY`, as every host command does after sending: any other
/// code is reported as a connection-refused-class failure.
pub fn require_okay(code: AdbConnState) -> (r: Result<(), AdbError>)
    ensures
        r is Ok <==> code == AdbConnState::OKAY,
        r is Err ==> r->Err_0 is IoError,
{
    if code == AdbConnState::OKAY {
        Ok(())
    } else {
        Err(AdbError::IoError { why: String::from_str("got wrong state from adb server") })
    }
}

/// The ASCII byte for one hex digit, upper case.
pub open spec fn hex_digit_byte(n: int) -> u8 {
    if n < 10 {
        (48 + n) as u8
    } else {
        (55 + n) as u8
    }
}

/// The 4 ASCII-hex bytes (upper case, zero padded) that announce a host
/// payload of `n` bytes.
pub open spec fn hex_len_bytes(n: int) -> Seq<u8> {
    seq![
        hex_digit_byte(n / 4096 % 16),
        hex_digit_byte(n / 256 % 16),
        hex_digit_byte(n / 16 % 16),
        hex_digit_byte(n % 16),
    ]
}

/// Whether a byte is an ASCII hex digit, either case.
pub open spec fn is_hex_digit(b: u8) -> bool {
    (48 <= b <= 57) || (65 <= b <= 70) || (97 <= b <= 102)
}

/// The value of an ASCII hex digit.
pub open spec fn hex_digit_val(b: u8) -> int {
    if 48 <= b <= 57 {
        b - 48
    } else if 65 <= b <= 70 {
        b - 55
    } else {
        b - 87
    }
}

/// Whether all bytes of a region are ASCII hex digits.
pub open spec fn all_hex(b: Seq<u8>) -> bool {
    forall|i: int| 0 <= i < b.len() ==> is_hex_digit(#[trigger] b[i])
}

/// The value of a 4-digit ASCII-hex length field.
pub open spec fn hex4_val(b: Seq<u8>) -> int {
    4096 * hex_digit_val(b[0]) + 256 * hex_digit_val(b[1]) + 16 * hex_digit_val(b[2])
        + hex_digit_val(b[3])
}

/// A complete host-command frame: the ASCII-hex length, then the payload.
/// Meaningful for payloads of at most 0xFFFF bytes.
pub open spec fn host_frame(payload: Seq<u8>) -> Seq<u8> {
    hex_len_bytes(payload.len() as int) + payload
}

/// The ASCII byte for one hex digit value below 16.
fn hex_digit(n: u32) -> (r: u8)
    requires
        n < 16,
    ensures
        r == hex_digit_byte(n as int),
{
    if n < 10 {
        (48 + n) as u8
    } else {
        (55 + n) as u8
    }
}

/// The value of one ASCII hex digit byte, or `None` where the byte is no
/// hex digit.
fn hex_digit_value(b: u8) -> (r: Option<u8>)
    ensures
        match r {
            Some(v) => is_hex_digit(b) && v == hex_digit_val(b) && v < 16,
            None => !is_hex_digit(b),
        },
{
    if 48 <= b && b <= 57 {
        Some(b - 48)
    } else if 65 <= b && b <= 70 {
        Some(b - 55)
    } else if 97 <= b && b <= 102 {
        Some(b - 87)
    } else {
        None
    }
}

/// Copies a byte region onto the end of a buffer.
pub fn append_bytes(dst: &mut Vec<u8>, src: &[u8])
    ensures
        final(dst)@ == old(dst)@ + src@,
{
    let mut i: usize = 0;
    while i < src.len()
        invariant
            i <= src@.len(),
            dst@ == old(dst)@ + src@.subrange(0, i as int),
        decreases src@.len() - i,
    {
        dst.push(src[i]);
        proof {
            assert(old(dst)@ + src@.subrange(0, i + 1) =~= (old(dst)@ + src@.subrange(
                0,
                i as int,
            )).push(src@[i as int]));
        }
        i = i + 1;
    }
    proof {
        assert(src@.subrange(0, src@.len() as int) =~= src@);
    }
}

/// Frames a host-command payload: computes its byte length, hex-encodes the
/// length as 4 upper-case zero-padded ASCII characters, and prepends it.
/// A payload too long for the 4-digit field is refused before any byte is
/// produced.
pub fn frame_payload(payload: &[u8]) -> (r: Result<Vec<u8>, AdbError>)
    ensures
        match r {
            Ok(v) => payload@.len() <= 0xFFFF && v@ == host_frame(payload@),
            Err(e) => payload@.len() > 0xFFFF && e is WriteMsgErr,
        },
{
    if payload.len() > 0xFFFF {
        return Err(
            AdbError::WriteMsgErr {
                cause: String::from_str("payload does not fit the 4-digit length field"),
            },
        );
    }
    let n = payload.len() as u32;
    let mut v: Vec<u8> = Vec::new();
    v.push(hex_digit(n / 4096 % 16));
    v.push(hex_digit(n / 256 % 16));
    v.push(hex_digit(n / 16 % 16));
    v.push(hex_digit(n % 16));
    proof {
        assert(v@ =~= hex_len_bytes(payload@.len() as int));
    }
    append_bytes(&mut v, payload);
    Ok(v)
}

/// Frames a host command given as text, as `send` does on a connection.
pub fn frame_command(cmd: &str) -> (r: Result<Vec<u8>, AdbError>)
    ensures
        match r {
            Ok(v) => cmd.spec_bytes().len() <= 0xFFFF && v@ == host_frame(cmd.spec_bytes()),
            Err(e) => cmd.spec_bytes().len() > 0xFFFF && e is WriteMsgErr,
        },
{
    frame_payload(cmd.as_bytes())
}

/// Parses the 4 ASCII-hex bytes of a length field. Either letter case is
/// accepted; any non-hex byte makes the whole field unparseable.
pub fn parse_hex_len(b: &[u8]) -> (r: Option<u32>)
    requires
        b@.len() == 4,
    ensures
        match r {
            Some(n) => all_hex(b@) && n == hex4_val(b@) && n <= 0xFFFF,
            None => !all_hex(b@),
        },
{
    let d0 = hex_digit_value(b[0]);
    let d1 = hex_digit_value(b[1]);
    let d2 = hex_digit_value(b[2]);
    let d3 = hex_digit_value(b[3]);
    match (d0, d1, d2, d3) {
        (Some(v0), Some(v1), Some(v2), Some(v3)) => {
            proof {
                assert forall|i: int| 0 <= i < b@.len() implies is_hex_digit(#[trigger] b@[i]) by {
                    assert(b@[0] == b[0 as int]);
                }
            }
            Some(4096 * (v0 as u32) + 256 * (v1 as u32) + 16 * (v2 as u32) + (v3 as u32))
        },
        _ => None,
    }
}

/// Rendering a payload length and reading it back yields the same length:
/// the ASCII-hex length field round-trips for every value it can carry.
pub proof fn lemma_hex_len_round_trip(n: int)
    requires
        0 <= n <= 0xFFFF,
    ensures
        all_hex(hex_len_bytes(n)),
        hex4_val(hex_len_bytes(n)) == n,
{
    let b = hex_len_bytes(n);
    assert(0 <= n / 4096 % 16 < 16) by (nonlinear_arith)
        requires 0 <= n;
    assert(0 <= n / 256 % 16 < 16) by (nonlinear_arith)
        requires 0 <= n;
    assert(0 <= n / 16 % 16 < 16) by (nonlinear_arith)
        requires 0 <= n;
    assert(0 <= n % 16 < 16) by (nonlinear_arith)
        requires 0 <= n;
    assert(hex_digit_val(hex_digit_byte(n / 4096 % 16)) == n / 4096 % 16);
    assert(hex_digit_val(hex_digit_byte(n / 256 % 16)) == n / 256 % 16);
    assert(hex_digit_val(hex_digit_byte(n / 16 % 16)) == n / 16 % 16);
    assert(hex_digit_val(hex_digit_byte(n % 16)) == n % 16);
    assert(n / 4096 % 16 == n / 4096) by (nonlinear_arith)
        requires 0 <= n <= 0xFFFF;
    assert(4096 * (n / 4096) + 256 * (n / 256 % 16) + 16 * (n / 16 % 16) + n % 16 == n)
        by (nonlinear_arith)
        requires 0 <= n <= 0xFFFF;
}

/// The value of 4 little-endian bytes.
pub open spec fn le_u32(b: Seq<u8>) -> int {
    b[0] + 256 * b[1] + 65536 * b[2] + 16777216 * b[3]
}

/// The 4 little-endian bytes of a value below 2^32.
pub open spec fn le_bytes_of(n: int) -> Seq<u8> {
    seq![
        (n % 256) as u8,
        (n / 256 % 256) as u8,
        (n / 65536 % 256) as u8,
        (n / 16777216 % 256) as u8,
    ]
}

/// Reads a 4-byte little-endian integer, as the sync layer frames lengths.
pub fn parse_le_u32(b: &[u8]) -> (r: u32)
    requires
        b@.len() == 4,
    ensures
        r == le_u32(b@),
{
    (b[0] as u32) + 256 * (b[1] as u32) + 65536 * (b[2] as u32) + 16777216 * (b[3] as u32)
}

/// Writes a value as 4 little-endian bytes.
pub fn encode_le_u32(n: u32) -> (r: Vec<u8>)
    ensures
        r@ == le_bytes_of(n as int),
        r@.len() == 4,
{
    let v = vec![
        (n % 256) as u8,
        (n / 256 % 256) as u8,
        (n / 65536 % 256) as u8,
        (n / 16777216 % 256) as u8,
    ];
    proof {
        assert(v@ =~= le_bytes_of(n as int));
    }
    v
}

/// A little-endian length field round-trips for every 32-bit value.
pub proof fn lemma_le_u32_round_trip(n: int)
    requires
        0 <= n < 0x1_0000_0000,
    ensures
        le_u32(le_bytes_of(n)) == n,
{
    assert((n % 256) + 256 * (n / 256 % 256) + 65536 * (n / 65536 % 256) + 16777216 * (n
        / 16777216 % 256) == n) by (nonlinear_arith)
        requires 0 <= n < 0x1_0000_0000;
}

} // verus!
