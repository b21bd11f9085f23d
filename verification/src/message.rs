//! The transport-layer message header.
//!
//! A transport-layer message is a 24-byte header of six 32-bit words —
//! command, two arguments, payload length, payload checksum, and the
//! command's complement — followed by the payload. An invalid header,
//! corrupt payload or unrecognized command must close the remote
//! connection.

use vstd::prelude::*;

verus! {

/// The transport-layer command identifiers.
#[derive(Debug, Clone, Copy, PartialEq, Eq, Structural)]
pub enum AdbCommand {
    SYNC,
    CNXN,
    AUTH,
    OPEN,
    OKAY,
    CLSE,
    WRTE,
}

/// The 32-bit constant of a command identifier: its ASCII tag read as a
/// little-endian word.
pub open spec fn command_code(c: AdbCommand) -> u32 {
    match c {
        AdbCommand::SYNC => 0x434e5953,
        AdbCommand::CNXN => 0x4e584e43,
        AdbCommand::AUTH => 0x48545541,
        AdbCommand::OPEN => 0x4e45504f,
        AdbCommand::OKAY => 0x59414b4f,
        AdbCommand::CLSE => 0x45534c43,
        AdbCommand::WRTE => 0x45545257,
    }
}

impl AdbCommand {
    /// The command's 32-bit wire constant.
    pub fn code(self) -> (r: u32)
        ensures
            r == command_code(self),
    {
        match self {
            AdbCommand::SYNC => 0x434e5953,
            AdbCommand::CNXN => 0x4e584e43,
            AdbCommand::AUTH => 0x48545541,
            AdbCommand::OPEN => 0x4e45504f,
            AdbCommand::OKAY => 0x59414b4f,
            AdbCommand::CLSE => 0x45534c43,
            AdbCommand::WRTE => 0x45545257,
        }
    }
}

/// The sum of a payload's bytes.
pub open spec fn byte_sum(s: Seq<u8>) -> int
    decreases s.len(),
{
    if s.len() == 0 {
        0
    } else {
        byte_sum(s.drop_last()) + s.last()
    }
}

/// The payload checksum a message header carries: the byte sum, reduced
/// to 32 bits.
pub open spec fn checksum_of(s: Seq<u8>) -> int {
    byte_sum(s) % 0x1_0000_0000
}

/// A transport-layer message: the six header words and the payload.
#[derive(Debug)]
pub struct AdbMessage {
    /// Command identifier constant.
    pub command: AdbCommand,
    /// First argument.
    pub arg0: u32,
    /// Second argument.
    pub arg1: u32,
    /// Length of the payload (0 is allowed).
    pub data_len: u32,
    /// Checksum of the payload.
    pub data_crc32: u32,
    /// The command word's complement: command XOR 0xFFFFFFFF.
    pub magic: u32,
    /// The payload.
    pub data: Vec<u8>,
}

impl AdbMessage {
    /// Builds a message over a payload, computing its length word, its
    /// checksum and the command's complement.
    pub fn create(command: AdbCommand, arg0: u32, arg1: u32, data: Vec<u8>) -> (r: AdbMessage)
        requires
            data@.len() <= u32::MAX,
        ensures
            r.command == command,
            r.arg0 == arg0,
            r.arg1 == arg1,
            r.data == data,
            r.data_len == data@.len(),
            r.data_crc32 == checksum_of(data@),
            r.magic == command_code(command) ^ 0xFFFFFFFFu32,
    {
        let magic = command.code() ^ 0xFFFFFFFFu32;
        let data_len = data.len() as u32;
        let mut crc: u32 = 0;
        let mut i: usize = 0;
        while i < data.len()
            invariant
                i <= data@.len(),
                crc == byte_sum(data@.take(i as int)) % 0x1_0000_0000,
            decreases data@.len() - i,
        {
            let b = data[i];
            proof {
                assert(data@.take(i + 1).drop_last() =~= data@.take(i as int));
                assert(data@.take(i + 1).last() == data@[i as int]);
                assert((byte_sum(data@.take(i as int)) % 0x1_0000_0000 + b) % 0x1_0000_0000 == (
                byte_sum(data@.take(i as int)) + b) % 0x1_0000_0000) by (nonlinear_arith);
            }
            crc = add_wrapped(crc, b as u32);
            i = i + 1;
        }
        proof {
            assert(data@.take(data@.len() as int) =~= data@);
        }
        AdbMessage { command, arg0, arg1, data, magic, data_len, data_crc32: crc }
    }
}

/// Adds two 32-bit words, wrapping on overflow.
fn add_wrapped(a: u32, b: u32) -> (r: u32)
    ensures
        r == (a + b) % 0x1_0000_0000,
{
    if a <= u32::MAX - b {
        proof {
            assert((a + b) % 0x1_0000_0000 == a + b) by (nonlinear_arith)
                requires 0 <= a + b < 0x1_0000_0000;
        }
        a + b
    } else {
        proof {
            assert((a + b) % 0x1_0000_0000 == a + b - 0x1_0000_0000) by (nonlinear_arith)
                requires 0x1_0000_0000 <= a + b < 0x2_0000_0000;
        }
        (a - (u32::MAX - b)) - 1
    }
}

/// The six raw header words of a transport-layer message, as they travel
/// in little-endian order on the wire.
#[derive(Debug, Clone, Copy, PartialEq, Eq, Structural)]
pub struct RawMessage {
    pub command: u32,
    pub arg0: u32,
    pub arg1: u32,
    pub data_length: u32,
    pub data_checksum: u32,
    pub magic: u32,
}

} // verus!
