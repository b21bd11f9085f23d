//! The sync sub-protocol: binary-framed file stat, listing, upload and
//! download on a transport-bound connection.
//!
//! Every sync request is a 4-byte ASCII command tag, a 4-byte
//! little-endian path length, and the path bytes. Downloads arrive as a
//! stream of 4-byte status codes: `DATA` announces a little-endian chunk
//! length and that many bytes, `DONE` ends the stream, `FAIL` announces a
//! little-endian message length and the failure text. Any framing
//! violation — a short read against a declared length above all — aborts
//! the whole operation; nothing is silently truncated.

use vstd::prelude::*;
use vstd::slice::slice_subrange;
use vstd::string::StrSliceExecFns;
use vstd::string::StringExecFns;
use vstd::string::StringSliceAdditionalSpecFns;
use vstd::utf8::decode_utf8;
use vstd::utf8::valid_utf8;

use crate::errors::AdbError;
use crate::text::dec_str;
use crate::text::lemma_dec_str_digits;
use crate::text::lemma_dec_str_len4;
use crate::text::u32_to_decimal;
use crate::wire::host_frame;
use crate::wire::AdbConnState;
use crate::wire::append_bytes;
use crate::wire::code_bytes;
use crate::wire::encode_le_u32;
use crate::wire::le_bytes_of;
use crate::wire::le_u32;
use crate::wire::parse_le_u32;

verus! {

/// The four sync request tags.
#[derive(Debug, Clone, Copy, PartialEq, Eq, Structural)]
pub enum SyncCommand {
    STAT,
    LIST,
    SEND,
    RECV,
}

/// The 4 ASCII bytes of a sync request tag.
pub open spec fn sync_tag_bytes(c: SyncCommand) -> Seq<u8> {
    match c {
        SyncCommand::STAT => seq![83u8, 84u8, 65u8, 84u8],
        SyncCommand::LIST => seq![76u8, 73u8, 83u8, 84u8],
        SyncCommand::SEND => seq![83u8, 69u8, 78u8, 68u8],
        SyncCommand::RECV => seq![82u8, 69u8, 67u8, 86u8],
    }
}

impl SyncCommand {
    /// The wire tag of this request.
    pub fn tag(self) -> (r: Vec<u8>)
        ensures
            r@ == sync_tag_bytes(self),
    {
        match self {
            SyncCommand::STAT => vec![83u8, 84u8, 65u8, 84u8],
            SyncCommand::LIST => vec![76u8, 73u8, 83u8, 84u8],
            SyncCommand::SEND => vec![83u8, 69u8, 78u8, 68u8],
            SyncCommand::RECV => vec![82u8, 69u8, 67u8, 86u8],
        }
    }
}

/// A complete sync request frame: tag, little-endian path length, path.
pub open spec fn sync_request_bytes(c: SyncCommand, path: Seq<u8>) -> Seq<u8> {
    sync_tag_bytes(c) + le_bytes_of(path.len() as int) + path
}

/// Frames one sync request for a path given as text. The path's byte
/// length must fit the 4-byte length field; a longer path is refused
/// before any byte is produced.
pub fn encode_sync_request(c: SyncCommand, path: &str) -> (r: Result<Vec<u8>, AdbError>)
    ensures
        match r {
            Ok(v) => path.spec_bytes().len() < 0x1_0000_0000 && v@ == sync_request_bytes(
                c,
                path.spec_bytes(),
            ),
            Err(e) => path.spec_bytes().len() >= 0x1_0000_0000 && e is FilePathErr,
        },
{
    let bytes = path.as_bytes();
    if bytes.len() as u64 >= 0x1_0000_0000u64 {
        return Err(AdbError::FilePathErr { path: String::from_str(path) });
    }
    let mut v = c.tag();
    let len = encode_le_u32(bytes.len() as u32);
    append_bytes_vec(&mut v, &len);
    append_bytes(&mut v, bytes);
    proof {
        assert(v@ =~= sync_request_bytes(c, path.spec_bytes()));
    }
    Ok(v)
}

/// Copies one buffer onto the end of another.
fn append_bytes_vec(dst: &mut Vec<u8>, src: &Vec<u8>)
    ensures
        final(dst)@ == old(dst)@ + src@,
{
    let s = src.as_slice();
    append_bytes(dst, s);
}

/// A remote file's metadata, as `STAT` and `LIST` report it: path, mode
/// bits, byte size, and modification timestamp, all as the wire carries
/// them. Produced only by those calls and never persisted beyond them.
#[derive(Debug)]
pub struct RemoteFileInfo {
    pub path: String,
    pub mode: u32,
    pub size: u32,
    pub mtime: u32,
}

/// Decodes the 12-byte `STAT` response — little-endian mode, size and
/// mtime — for the path that was asked about.
pub fn parse_stat_response(path: &str, b: &[u8]) -> (r: RemoteFileInfo)
    requires
        b@.len() == 12,
    ensures
        r.path@ == path@,
        r.mode == le_u32(b@.subrange(0, 4)),
        r.size == le_u32(b@.subrange(4, 8)),
        r.mtime == le_u32(b@.subrange(8, 12)),
{
    let mode = parse_le_u32(slice_subrange(b, 0, 4));
    let size = parse_le_u32(slice_subrange(b, 4, 8));
    let mtime = parse_le_u32(slice_subrange(b, 8, 12));
    RemoteFileInfo { path: String::from_str(path), mode, size, mtime }
}

/// Decodes the 16-byte header that follows a non-`DONE` code in a `LIST`
/// response: little-endian mode, size, mtime, and the entry name's
/// length.
pub fn parse_list_header(b: &[u8]) -> (r: (u32, u32, u32, u32))
    requires
        b@.len() == 16,
    ensures
        r.0 == le_u32(b@.subrange(0, 4)),
        r.1 == le_u32(b@.subrange(4, 8)),
        r.2 == le_u32(b@.subrange(8, 12)),
        r.3 == le_u32(b@.subrange(12, 16)),
{
    let mode = parse_le_u32(slice_subrange(b, 0, 4));
    let size = parse_le_u32(slice_subrange(b, 4, 8));
    let mtime = parse_le_u32(slice_subrange(b, 8, 12));
    let name_len = parse_le_u32(slice_subrange(b, 12, 16));
    (mode, size, mtime, name_len)
}

/// Relies on String::from_utf8: it succeeds exactly on valid UTF-8 input
/// and decodes those bytes, as its documentation states.
#[verifier::external_body]
fn bytes_to_string(v: Vec<u8>) -> (r: Option<String>)
    ensures
        match r {
            Some(s) => valid_utf8(v@) && s@ == decode_utf8(v@),
            None => !valid_utf8(v@),
        },
{
    match String::from_utf8(v) {
        Ok(s) => Some(s),
        Err(_) => None,
    }
}

/// What a complete `RECV` byte stream denotes.
pub enum RecvOutcome {
    /// The stream ends in `DONE`; these are the downloaded bytes.
    Complete(Seq<u8>),
    /// The stream breaks off inside a status or length field.
    ShortHeader { expected: int, got: int },
    /// A declared length exceeds the bytes that follow it.
    ShortChunk { declared: int, got: int },
    /// The remote side signalled `FAIL` with this message.
    Remote(Seq<u8>),
    /// A status code that is none of `DATA`, `DONE`, `FAIL`.
    BadCode,
}

/// The meaning of a `RECV` response stream, chunk by chunk.
pub open spec fn recv_decode(b: Seq<u8>) -> RecvOutcome
    decreases b.len(),
{
    if b.len() < 4 {
        RecvOutcome::ShortHeader { expected: 4, got: b.len() as int }
    } else if b.take(4) == code_bytes(AdbConnState::DONE) {
        RecvOutcome::Complete(seq![])
    } else if b.take(4) == code_bytes(AdbConnState::FAIL) {
        if b.len() < 8 {
            RecvOutcome::ShortHeader { expected: 8, got: b.len() as int }
        } else {
            let n = le_u32(b.subrange(4, 8));
            if b.len() < 8 + n {
                RecvOutcome::ShortChunk { declared: n, got: b.len() - 8 }
            } else {
                RecvOutcome::Remote(b.subrange(8, 8 + n))
            }
        }
    } else if b.take(4) == code_bytes(AdbConnState::DATA) {
        if b.len() < 8 {
            RecvOutcome::ShortHeader { expected: 8, got: b.len() as int }
        } else {
            let n = le_u32(b.subrange(4, 8));
            if b.len() < 8 + n {
                RecvOutcome::ShortChunk { declared: n, got: b.len() - 8 }
            } else {
                match recv_decode(b.skip(8 + n)) {
                    RecvOutcome::Complete(rest) => RecvOutcome::Complete(
                        b.subrange(8, 8 + n) + rest,
                    ),
                    o => o,
                }
            }
        }
    } else {
        RecvOutcome::BadCode
    }
}

/// Prefixes already-downloaded bytes onto the meaning of the remaining
/// stream.
pub open spec fn recv_prepend(prefix: Seq<u8>, o: RecvOutcome) -> RecvOutcome {
    match o {
        RecvOutcome::Complete(d) => RecvOutcome::Complete(prefix + d),
        other => other,
    }
}

/// Whether an error value reports a `RECV` outcome faithfully.
pub open spec fn recv_error_matches(e: AdbError, o: RecvOutcome) -> bool {
    match o {
        RecvOutcome::Complete(_) => false,
        RecvOutcome::ShortHeader { expected, got } => e matches AdbError::ShortRead {
            expected: ex,
            got: g,
        } && ex == expected && g == got,
        RecvOutcome::ShortChunk { declared, got } => e matches AdbError::ShortRead {
            expected: ex,
            got: g,
        } && ex == declared && g == got,
        RecvOutcome::Remote(m) => {
            if valid_utf8(m) {
                e matches AdbError::FileTransferErr { cause, .. } && cause@ == decode_utf8(m)
            } else {
                e is ProtocolParseError
            }
        },
        RecvOutcome::BadCode => e is ProtocolParseError,
    }
}

/// Decodes a complete `RECV` response stream into the downloaded bytes.
///
/// A declared chunk length that exceeds the bytes actually present is a
/// hard `ShortRead` failure — the download is never silently truncated. A
/// remote `FAIL` frame fails the pull with the remote's message as cause.
pub fn decode_recv_stream(remote_path: &str, buf: &Vec<u8>) -> (r: Result<Vec<u8>, AdbError>)
    ensures
        match r {
            Ok(data) => recv_decode(buf@) == RecvOutcome::Complete(data@),
            Err(e) => recv_error_matches(e, recv_decode(buf@)),
        },
{
    let mut out: Vec<u8> = Vec::new();
    let mut pos: usize = 0;
    proof {
        assert(buf@.skip(0) =~= buf@);
        assert(out@ + Seq::<u8>::empty() =~= Seq::<u8>::empty());
        assert(recv_decode(buf@) == recv_prepend(out@, recv_decode(buf@.skip(0))));
    }
    loop
        invariant
            pos <= buf@.len(),
            recv_decode(buf@) == recv_prepend(out@, recv_decode(buf@.skip(pos as int))),
        decreases buf@.len() - pos,
    {
        let ghost rem = buf@.skip(pos as int);
        if buf.len() - pos < 4 {
            return Err(AdbError::ShortRead { expected: 4, got: buf.len() - pos });
        }
        let code_slice = slice_subrange(buf.as_slice(), pos, pos + 4);
        proof {
            assert(rem.take(4) =~= code_slice@);
        }
        let code = crate::wire::parse_sync_code(code_slice);
        match code {
            Some(AdbConnState::DONE) => {
                proof {
                    assert(out@ + Seq::<u8>::empty() =~= out@);
                }
                return Ok(out);
            },
            Some(AdbConnState::FAIL) => {
                if buf.len() - pos < 8 {
                    return Err(AdbError::ShortRead { expected: 8, got: buf.len() - pos });
                }
                let len_slice = slice_subrange(buf.as_slice(), pos + 4, pos + 8);
                proof {
                    assert(rem.subrange(4, 8) =~= len_slice@);
                }
                let n = parse_le_u32(len_slice) as usize;
                if buf.len() - pos - 8 < n {
                    return Err(AdbError::ShortRead { expected: n, got: buf.len() - pos - 8 });
                }
                let msg_slice = slice_subrange(buf.as_slice(), pos + 8, pos + 8 + n);
                proof {
                    assert(rem.subrange(8, 8 + n as int) =~= msg_slice@);
                }
                let mut msg: Vec<u8> = Vec::new();
                append_bytes(&mut msg, msg_slice);
                match bytes_to_string(msg) {
                    Some(cause) => {
                        return Err(
                            AdbError::FileTransferErr {
                                filename: String::from_str(remote_path),
                                cause,
                            },
                        );
                    },
                    None => {
                        return Err(
                            AdbError::ProtocolParseError {
                                why: String::from_str("failure message is not UTF-8"),
                            },
                        );
                    },
                }
            },
            Some(AdbConnState::DATA) => {
                if buf.len() - pos < 8 {
                    return Err(AdbError::ShortRead { expected: 8, got: buf.len() - pos });
                }
                let len_slice = slice_subrange(buf.as_slice(), pos + 4, pos + 8);
                proof {
                    assert(rem.subrange(4, 8) =~= len_slice@);
                }
                let n = parse_le_u32(len_slice) as usize;
                if buf.len() - pos - 8 < n {
                    return Err(AdbError::ShortRead { expected: n, got: buf.len() - pos - 8 });
                }
                let chunk_slice = slice_subrange(buf.as_slice(), pos + 8, pos + 8 + n);
                proof {
                    assert(rem.subrange(8, 8 + n as int) =~= chunk_slice@);
                }
                let ghost old_out = out@;
                append_bytes(&mut out, chunk_slice);
                proof {
                    assert(rem.skip(8 + n as int) =~= buf@.skip(pos + 8 + n));
                    assert forall|o: RecvOutcome|
                        recv_prepend(old_out, recv_prepend(rem.subrange(8, 8 + n as int), o))
                            == recv_prepend(out@, o) by {
                        match o {
                            RecvOutcome::Complete(d) => {
                                assert(old_out + (rem.subrange(8, 8 + n as int) + d) =~= (old_out
                                    + rem.subrange(8, 8 + n as int)) + d);
                            },
                            _ => {
                            },
                        }
                    }
                }
                pos = pos + 8 + n;
            },
            _ => {
                return Err(
                    AdbError::ProtocolParseError {
                        why: String::from_str("unexpected status code in download stream"),
                    },
                );
            },
        }
    }
}

/// The spec-level shape of one directory entry as `LIST` frames it.
pub struct EntryRec {
    pub mode: u32,
    pub size: u32,
    pub mtime: u32,
    pub name: Seq<u8>,
}

/// What a complete `LIST` byte stream denotes.
pub enum ListOutcome {
    /// The stream ends in `DONE`; these are the entries, in server order.
    Complete(Seq<EntryRec>),
    /// The stream breaks off inside a frame.
    Short { expected: int, got: int },
    /// An entry name that is not UTF-8 text.
    BadName,
}

/// The meaning of a `LIST` response stream: `DONE` ends it; any other
/// 4-byte code opens an entry of 16 header bytes — little-endian mode,
/// size, mtime and name length — followed by the entry name.
pub open spec fn list_decode(b: Seq<u8>) -> ListOutcome
    decreases b.len(),
{
    if b.len() < 4 {
        ListOutcome::Short { expected: 4, got: b.len() as int }
    } else if b.take(4) == code_bytes(AdbConnState::DONE) {
        ListOutcome::Complete(seq![])
    } else if b.len() < 20 {
        ListOutcome::Short { expected: 16, got: b.len() - 4 }
    } else {
        let n = le_u32(b.subrange(16, 20));
        if b.len() < 20 + n {
            ListOutcome::Short { expected: n, got: b.len() - 20 }
        } else if !valid_utf8(b.subrange(20, 20 + n)) {
            ListOutcome::BadName
        } else {
            match list_decode(b.skip(20 + n)) {
                ListOutcome::Complete(rest) => ListOutcome::Complete(
                    seq![
                        EntryRec {
                            mode: le_u32(b.subrange(4, 8)) as u32,
                            size: le_u32(b.subrange(8, 12)) as u32,
                            mtime: le_u32(b.subrange(12, 16)) as u32,
                            name: b.subrange(20, 20 + n),
                        },
                    ] + rest,
                ),
                o => o,
            }
        }
    }
}

/// Prefixes already-decoded entries onto the meaning of the remaining
/// stream.
pub open spec fn list_prepend(prefix: Seq<EntryRec>, o: ListOutcome) -> ListOutcome {
    match o {
        ListOutcome::Complete(es) => ListOutcome::Complete(prefix + es),
        other => other,
    }
}

/// Whether decoded file records match the spec entries, one per entry, in
/// server order, each name decoded from its UTF-8 bytes.
pub open spec fn list_entries_match(rs: Seq<RemoteFileInfo>, es: Seq<EntryRec>) -> bool {
    rs.len() == es.len() && forall|j: int|
        0 <= j < rs.len() ==> {
            &&& (#[trigger] rs[j]).mode == es[j].mode
            &&& rs[j].size == es[j].size
            &&& rs[j].mtime == es[j].mtime
            &&& valid_utf8(es[j].name)
            &&& rs[j].path@ == decode_utf8(es[j].name)
        }
}

/// Whether an error value reports a `LIST` outcome faithfully.
pub open spec fn list_error_matches(e: AdbError, o: ListOutcome) -> bool {
    match o {
        ListOutcome::Complete(_) => false,
        ListOutcome::Short { expected, got } => e matches AdbError::ShortRead {
            expected: ex,
            got: g,
        } && ex == expected && g == got,
        ListOutcome::BadName => e is ProtocolParseError,
    }
}

/// Decodes a complete `LIST` response stream into its directory entries,
/// one record per entry, in the order the server delivered them.
pub fn parse_list_response(buf: &Vec<u8>) -> (r: Result<Vec<RemoteFileInfo>, AdbError>)
    ensures
        match r {
            Ok(entries) => list_decode(buf@) matches ListOutcome::Complete(es)
                && list_entries_match(entries@, es),
            Err(e) => list_error_matches(e, list_decode(buf@)),
        },
{
    let mut out: Vec<RemoteFileInfo> = Vec::new();
    let ghost mut pres: Seq<EntryRec> = Seq::empty();
    let mut pos: usize = 0;
    proof {
        assert(buf@.skip(0) =~= buf@);
        assert(forall|es: Seq<EntryRec>| Seq::<EntryRec>::empty() + es =~= es);
        assert(list_decode(buf@) == list_prepend(pres, list_decode(buf@.skip(0))));
    }
    loop
        invariant
            pos <= buf@.len(),
            list_decode(buf@) == list_prepend(pres, list_decode(buf@.skip(pos as int))),
            list_entries_match(out@, pres),
        decreases buf@.len() - pos,
    {
        let ghost rem = buf@.skip(pos as int);
        if buf.len() - pos < 4 {
            return Err(AdbError::ShortRead { expected: 4, got: buf.len() - pos });
        }
        let code_slice = slice_subrange(buf.as_slice(), pos, pos + 4);
        proof {
            assert(rem.take(4) =~= code_slice@);
        }
        let code = crate::wire::parse_sync_code(code_slice);
        if matches!(code, Some(AdbConnState::DONE)) {
            proof {
                assert(pres + Seq::<EntryRec>::empty() =~= pres);
            }
            return Ok(out);
        }
        if buf.len() - pos < 20 {
            return Err(AdbError::ShortRead { expected: 16, got: buf.len() - pos - 4 });
        }
        let mode = parse_le_u32(slice_subrange(buf.as_slice(), pos + 4, pos + 8));
        let size = parse_le_u32(slice_subrange(buf.as_slice(), pos + 8, pos + 12));
        let mtime = parse_le_u32(slice_subrange(buf.as_slice(), pos + 12, pos + 16));
        let len_slice = slice_subrange(buf.as_slice(), pos + 16, pos + 20);
        proof {
            assert(rem.subrange(4, 8) =~= buf@.subrange(pos + 4, pos + 8));
            assert(rem.subrange(8, 12) =~= buf@.subrange(pos + 8, pos + 12));
            assert(rem.subrange(12, 16) =~= buf@.subrange(pos + 12, pos + 16));
            assert(rem.subrange(16, 20) =~= len_slice@);
        }
        let n = parse_le_u32(len_slice) as usize;
        if buf.len() - pos - 20 < n {
            return Err(AdbError::ShortRead { expected: n, got: buf.len() - pos - 20 });
        }
        let name_slice = slice_subrange(buf.as_slice(), pos + 20, pos + 20 + n);
        proof {
            assert(rem.subrange(20, 20 + n as int) =~= name_slice@);
        }
        let mut name_bytes: Vec<u8> = Vec::new();
        append_bytes(&mut name_bytes, name_slice);
        let name = match bytes_to_string(name_bytes) {
            Some(s) => s,
            None => {
                return Err(
                    AdbError::ProtocolParseError {
                        why: String::from_str("directory entry name is not UTF-8"),
                    },
                );
            },
        };
        let ghost entry = EntryRec {
            mode,
            size,
            mtime,
            name: rem.subrange(20, 20 + n as int),
        };
        out.push(RemoteFileInfo { path: name, mode, size, mtime });
        proof {
            let old_pres = pres;
            pres = pres + seq![entry];
            assert(rem.skip(20 + n as int) =~= buf@.skip(pos + 20 + n));
            assert forall|o: ListOutcome|
                list_prepend(old_pres, list_prepend(seq![entry], o)) == list_prepend(pres, o) by {
                match o {
                    ListOutcome::Complete(es) => {
                        assert(old_pres + (seq![entry] + es) =~= (old_pres + seq![entry]) + es);
                    },
                    _ => {
                    },
                }
            }
        }
        pos = pos + 20 + n;
    }
}

/// The bytes of an ASCII character sequence, one byte per character.
pub open spec fn ascii_bytes(s: Seq<char>) -> Seq<u8> {
    Seq::new(s.len(), |i: int| s[i] as u8)
}

/// The upload chunk header: the literal tag `DATA` followed by the chunk
/// length as decimal ASCII text — the host-command framing helper's
/// decimal form, reused by the upload path, not the sync layer's binary
/// form.
pub open spec fn data_header_bytes(n: int) -> Seq<u8> {
    ascii_bytes("DATA"@ + dec_str(n))
}

/// One upload chunk as it goes on the wire: the host-framed `DATA<length>`
/// header, then the host-framed chunk bytes.
pub open spec fn push_chunk_frame(c: Seq<u8>) -> Seq<u8> {
    host_frame(data_header_bytes(c.len() as int)) + host_frame(c)
}

/// A whole upload as it goes on the wire: the file bytes in fixed chunks
/// of at most 4096 bytes, each framed by `push_chunk_frame`.
pub open spec fn push_stream(b: Seq<u8>) -> Seq<u8>
    decreases b.len(),
{
    if b.len() == 0 {
        seq![]
    } else if b.len() <= 4096 {
        push_chunk_frame(b)
    } else {
        push_chunk_frame(b.take(4096)) + push_stream(b.skip(4096))
    }
}

/// Frames one upload chunk: `DATA<decimal length>` under host framing,
/// then the chunk bytes under host framing.
pub fn encode_push_chunk(chunk: &[u8]) -> (r: Vec<u8>)
    requires
        chunk@.len() <= 4096,
    ensures
        r@ == push_chunk_frame(chunk@),
{
    let mut header = String::from_str("DATA");
    let dec = u32_to_decimal(chunk.len() as u32);
    header.append(dec.as_str());
    proof {
        reveal_strlit("DATA");
        lemma_dec_str_digits(chunk@.len() as int);
        lemma_dec_str_len4(chunk@.len() as int);
        assert forall|i: int| 0 <= i < header@.len() implies '\0' <= #[trigger] header@[i]
            <= '\u{7f}' by {
            if i < 4 {
                assert(header@[i] == "DATA"@[i]);
            } else {
                assert(header@[i] == dec_str(chunk@.len() as int)[i - 4]);
                assert('0' <= header@[i] <= '9');
            }
        }
        assert(vstd::utf8::is_ascii_chars(header@));
        vstd::utf8::is_ascii_chars_encode_utf8(header@);
        assert(vstd::utf8::encode_utf8(header@) =~= ascii_bytes(header@));
        assert(header@.len() <= 8);
    }
    let framed_header = crate::wire::frame_command(header.as_str());
    let mut r = match framed_header {
        Ok(h) => h,
        Err(_) => {
            proof {
                assert(false);
            }
            Vec::new()
        },
    };
    let framed_chunk = match crate::wire::frame_payload(chunk) {
        Ok(c) => c,
        Err(_) => {
            proof {
                assert(false);
            }
            Vec::new()
        },
    };
    append_bytes_vec(&mut r, &framed_chunk);
    proof {
        assert(r@ =~= push_chunk_frame(chunk@));
    }
    r
}

/// Frames a whole upload, chunk by chunk, in order.
pub fn encode_push_stream(data: &Vec<u8>) -> (r: Vec<u8>)
    ensures
        r@ == push_stream(data@),
{
    let mut out: Vec<u8> = Vec::new();
    let mut pos: usize = 0;
    proof {
        assert(data@.skip(0) =~= data@);
    }
    while pos < data.len()
        invariant
            pos <= data@.len(),
            push_stream(data@) == out@ + push_stream(data@.skip(pos as int)),
        decreases data@.len() - pos,
    {
        let ghost rem = data@.skip(pos as int);
        let remaining = data.len() - pos;
        let take = if remaining <= 4096 {
            remaining
        } else {
            4096
        };
        let chunk = slice_subrange(data.as_slice(), pos, pos + take);
        let frame = encode_push_chunk(chunk);
        append_bytes_vec(&mut out, &frame);
        proof {
            if remaining <= 4096 {
                assert(rem =~= chunk@);
                assert(data@.skip(pos + take).len() == 0);
                assert(out@ + push_stream(data@.skip(pos + take)) =~= out@);
            } else {
                assert(rem.take(4096) =~= chunk@);
                assert(rem.skip(4096) =~= data@.skip(pos + 4096));
            }
        }
        pos = pos + take;
    }
    proof {
        assert(push_stream(data@) =~= out@);
    }
    out
}

/// The fixed chunking of an upload: full 4096-byte chunks, then whatever
/// remains.
pub open spec fn chunks_of(b: Seq<u8>) -> Seq<Seq<u8>>
    decreases b.len(),
{
    if b.len() == 0 {
        seq![]
    } else if b.len() <= 4096 {
        seq![b]
    } else {
        seq![b.take(4096)] + chunks_of(b.skip(4096))
    }
}

/// The bytes of a sequence of chunks, in order.
pub open spec fn concat_chunks(cs: Seq<Seq<u8>>) -> Seq<u8>
    decreases cs.len(),
{
    if cs.len() == 0 {
        seq![]
    } else {
        cs[0] + concat_chunks(cs.drop_first())
    }
}

/// Chunking splits and loses nothing: the chunks of an upload put back
/// together are the upload, so the cumulative size pushed equals the
/// file's size.
pub proof fn lemma_chunks_of_concat(b: Seq<u8>)
    ensures
        concat_chunks(chunks_of(b)) == b,
    decreases b.len(),
{
    if b.len() == 0 {
        assert(concat_chunks(chunks_of(b)) =~= b);
    } else if b.len() <= 4096 {
        assert(chunks_of(b) =~= seq![b]);
        assert(chunks_of(b).drop_first() =~= Seq::<Seq<u8>>::empty());
        assert(concat_chunks(Seq::<Seq<u8>>::empty()) =~= Seq::<u8>::empty());
        assert(chunks_of(b)[0] == b);
        assert(b + Seq::<u8>::empty() =~= b);
        assert(concat_chunks(chunks_of(b)) =~= b);
    } else {
        lemma_chunks_of_concat(b.skip(4096));
        assert(chunks_of(b).drop_first() =~= chunks_of(b.skip(4096)));
        assert(chunks_of(b)[0] == b.take(4096));
        assert(b.take(4096) + b.skip(4096) =~= b);
    }
}

/// Every chunk of an upload is non-empty and at most 4096 bytes.
pub proof fn lemma_chunks_of_bounds(b: Seq<u8>)
    ensures
        forall|i: int| 0 <= i < chunks_of(b).len() ==> 0 < (#[trigger] chunks_of(b)[i]).len()
            <= 4096,
    decreases b.len(),
{
    if b.len() == 0 {
    } else if b.len() <= 4096 {
        assert(chunks_of(b) =~= seq![b]);
    } else {
        lemma_chunks_of_bounds(b.skip(4096));
        let cs = chunks_of(b);
        assert forall|i: int| 0 <= i < cs.len() implies 0 < (#[trigger] cs[i]).len() <= 4096 by {
            if i == 0 {
                assert(cs[0] == b.take(4096));
            } else {
                assert(cs[i] == chunks_of(b.skip(4096))[i - 1]);
            }
        }
    }
}

/// A download stream that answers an upload: one `DATA` frame per chunk,
/// with the sync layer's little-endian length, then `DONE`.
pub open spec fn recv_stream_of(cs: Seq<Seq<u8>>) -> Seq<u8>
    decreases cs.len(),
{
    if cs.len() == 0 {
        code_bytes(AdbConnState::DONE)
    } else {
        code_bytes(AdbConnState::DATA) + le_bytes_of(cs[0].len() as int) + cs[0] + recv_stream_of(
            cs.drop_first(),
        )
    }
}

proof fn lemma_recv_stream_min_len(cs: Seq<Seq<u8>>)
    ensures
        recv_stream_of(cs).len() >= 4,
    decreases cs.len(),
{
    if cs.len() > 0 {
        lemma_recv_stream_min_len(cs.drop_first());
    }
}

/// Decoding a download stream built from chunks yields exactly those
/// chunks' bytes, in order.
pub proof fn lemma_recv_stream_round_trip(cs: Seq<Seq<u8>>)
    requires
        forall|i: int| 0 <= i < cs.len() ==> (#[trigger] cs[i]).len() < 0x1_0000_0000,
    ensures
        recv_decode(recv_stream_of(cs)) == RecvOutcome::Complete(concat_chunks(cs)),
    decreases cs.len(),
{
    let b = recv_stream_of(cs);
    if cs.len() == 0 {
        assert(b.take(4) =~= code_bytes(AdbConnState::DONE));
        assert(concat_chunks(cs) =~= Seq::<u8>::empty());
    } else {
        let c = cs[0];
        let rest = recv_stream_of(cs.drop_first());
        lemma_recv_stream_min_len(cs.drop_first());
        assert(b.len() == 8 + c.len() + rest.len());
        assert(b.take(4) =~= code_bytes(AdbConnState::DATA));
        assert(code_bytes(AdbConnState::DATA)[1] != code_bytes(AdbConnState::DONE)[1]);
        assert(code_bytes(AdbConnState::DATA)[0] != code_bytes(AdbConnState::FAIL)[0]);
        assert(b.subrange(4, 8) =~= le_bytes_of(c.len() as int));
        crate::wire::lemma_le_u32_round_trip(c.len() as int);
        assert(le_u32(b.subrange(4, 8)) == c.len());
        assert(b.subrange(8, 8 + c.len() as int) =~= c);
        assert(b.skip(8 + c.len() as int) =~= rest);
        assert(forall|i: int|
            0 <= i < cs.drop_first().len() ==> (#[trigger] cs.drop_first()[i]).len()
                < 0x1_0000_0000);
        lemma_recv_stream_round_trip(cs.drop_first());
        assert(recv_decode(b) == RecvOutcome::Complete(c + concat_chunks(cs.drop_first())));
    }
}

/// Push-then-pull round trip: chunking a byte sequence for upload and
/// decoding the download stream built from those same chunks reproduces
/// the original bytes exactly.
pub proof fn lemma_push_pull_round_trip(b: Seq<u8>)
    ensures
        recv_decode(recv_stream_of(chunks_of(b))) == RecvOutcome::Complete(b),
        concat_chunks(chunks_of(b)) == b,
{
    lemma_chunks_of_bounds(b);
    lemma_chunks_of_concat(b);
    lemma_recv_stream_round_trip(chunks_of(b));
}

/// A declared `DATA` length that exceeds the bytes present is reported as
/// a short chunk naming both lengths — never as a shorter download.
pub proof fn lemma_short_chunk_detected(n: int, avail: Seq<u8>)
    requires
        0 <= n < 0x1_0000_0000,
        avail.len() < n,
    ensures
        recv_decode(code_bytes(AdbConnState::DATA) + le_bytes_of(n) + avail)
            == (RecvOutcome::ShortChunk { declared: n, got: avail.len() as int }),
{
    let b = code_bytes(AdbConnState::DATA) + le_bytes_of(n) + avail;
    assert(b.len() == 8 + avail.len());
    assert(b.take(4) =~= code_bytes(AdbConnState::DATA));
    assert(code_bytes(AdbConnState::DATA)[1] != code_bytes(AdbConnState::DONE)[1]);
    assert(code_bytes(AdbConnState::DATA)[0] != code_bytes(AdbConnState::FAIL)[0]);
    assert(b.subrange(4, 8) =~= le_bytes_of(n));
    crate::wire::lemma_le_u32_round_trip(n);
    assert(le_u32(b.subrange(4, 8)) == n);
}

} // verus!
