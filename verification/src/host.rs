//! Host-level command strings and host-framed response payloads.
//!
//! Every request to the daemon's control channel is one of a small set of
//! command strings, framed by `wire::frame_command`. A string response is
//! a 4-digit ASCII-hex length followed by that many bytes of UTF-8 text.

use vstd::prelude::*;
use vstd::slice::slice_subrange;
use vstd::string::StrSliceExecFns;
use vstd::string::StringExecFns;

use crate::errors::AdbError;
use crate::text::dec_parse_ok;
use crate::text::digits_val;
use crate::text::parse_decimal_u32;
use crate::wire::all_hex;
use crate::wire::hex4_val;
use crate::wire::parse_hex_len;

verus! {

/// The version query.
pub fn version_command() -> (r: String)
    ensures
        r@ == "host:version"@,
{
    String::from_str("host:version")
}

/// The one-shot device listing request.
pub fn devices_command() -> (r: String)
    ensures
        r@ == "host:devices"@,
{
    String::from_str("host:devices")
}

/// The request that asks the daemon to exit.
pub fn kill_command() -> (r: String)
    ensures
        r@ == "host:kill"@,
{
    String::from_str("host:kill")
}

/// The request that asks the daemon to connect to a device address.
pub fn connect_command(addr: &str) -> (r: String)
    ensures
        r@ == "host:connect:"@ + addr@,
{
    let mut s = String::from_str("host:connect:");
    s.append(addr);
    s
}

/// The request that asks the daemon to drop a device address.
pub fn disconnect_command(addr: &str) -> (r: String)
    ensures
        r@ == "host:disconnect:"@ + addr@,
{
    let mut s = String::from_str("host:disconnect:");
    s.append(addr);
    s
}

/// The transport selection that binds a connection to one device for the
/// device-scoped commands that follow on it.
pub fn transport_command(serial: &str) -> (r: String)
    ensures
        r@ == "host:transport:"@ + serial@,
{
    let mut s = String::from_str("host:transport:");
    s.append(serial);
    s
}

/// The remote shell request, issued after transport selection.
pub fn shell_command(cmd: &str) -> (r: String)
    ensures
        r@ == "shell:"@ + cmd@,
{
    let mut s = String::from_str("shell:");
    s.append(cmd);
    s
}

/// The request that enters the sync namespace on a transport-bound
/// connection.
pub fn sync_command() -> (r: String)
    ensures
        r@ == "sync:"@,
{
    String::from_str("sync:")
}

/// Parses the version query's string payload as an unsigned integer:
/// exactly the non-empty all-digit payloads within 32-bit range succeed.
pub fn parse_version_payload(s: &str) -> (r: Result<u32, AdbError>)
    ensures
        match r {
            Ok(n) => dec_parse_ok(s@) && n == digits_val(s@),
            Err(e) => !dec_parse_ok(s@) && e is ProtocolParseError,
        },
{
    match parse_decimal_u32(s) {
        Some(n) => Ok(n),
        None => Err(
            AdbError::ProtocolParseError {
                why: String::from_str("version payload is not an unsigned integer"),
            },
        ),
    }
}

/// A host frame reads back as itself: in front of any trailing bytes,
/// the length field of `host_frame(payload)` parses to the payload's
/// length, and exactly the payload follows it. Together with the
/// contract of `parse_framed_payload`, framing and reading a payload
/// round-trips for every payload the 4-digit field can announce.
pub proof fn lemma_host_frame_round_trip(payload: Seq<u8>, rest: Seq<u8>)
    requires
        payload.len() <= 0xFFFF,
    ensures
        ({
            let buf = crate::wire::host_frame(payload) + rest;
            &&& buf.len() >= 4 + payload.len()
            &&& all_hex(buf.subrange(0, 4))
            &&& hex4_val(buf.subrange(0, 4)) == payload.len()
            &&& buf.subrange(4, 4 + payload.len() as int) == payload
        }),
{
    let buf = crate::wire::host_frame(payload) + rest;
    crate::wire::lemma_hex_len_round_trip(payload.len() as int);
    assert(buf.subrange(0, 4) =~= crate::wire::hex_len_bytes(payload.len() as int));
    assert(buf.subrange(4, 4 + payload.len() as int) =~= payload);
}

/// Reads one length-framed string payload from the front of a buffer:
/// 4 ASCII-hex length bytes, then exactly that many payload bytes.
/// A length field that does not parse is a distinct failure from a buffer
/// shorter than the length it declares.
pub fn parse_framed_payload(buf: &[u8]) -> (r: Result<(Vec<u8>, usize), AdbError>)
    ensures
        match r {
            Ok((payload, consumed)) => {
                &&& buf@.len() >= 4
                &&& all_hex(buf@.subrange(0, 4))
                &&& consumed == 4 + hex4_val(buf@.subrange(0, 4))
                &&& buf@.len() >= consumed
                &&& payload@ == buf@.subrange(4, consumed as int)
            },
            Err(e) => match e {
                AdbError::ShortRead { expected, got } => {
                    ||| (buf@.len() < 4 && expected == 4 && got == buf@.len())
                    ||| (buf@.len() >= 4 && all_hex(buf@.subrange(0, 4)) && expected == hex4_val(
                        buf@.subrange(0, 4),
                    ) && got == buf@.len() - 4 && buf@.len() - 4 < expected)
                },
                AdbError::ProtocolParseError { .. } => buf@.len() >= 4 && !all_hex(
                    buf@.subrange(0, 4),
                ),
                _ => false,
            },
        },
{
    if buf.len() < 4 {
        return Err(AdbError::ShortRead { expected: 4, got: buf.len() });
    }
    let head = slice_subrange(buf, 0, 4);
    match parse_hex_len(head) {
        None => Err(
            AdbError::ProtocolParseError {
                why: String::from_str("framed payload length is not 4 hex digits"),
            },
        ),
        Some(n) => {
            let need = n as usize;
            if buf.len() - 4 < need {
                return Err(AdbError::ShortRead { expected: need, got: buf.len() - 4 });
            }
            let payload_slice = slice_subrange(buf, 4, 4 + need);
            let mut payload: Vec<u8> = Vec::new();
            crate::wire::append_bytes(&mut payload, payload_slice);
            proof {
                assert(payload@ =~= buf@.subrange(4, 4 + need));
            }
            Ok((payload, 4 + need))
        },
    }
}

} // verus!
