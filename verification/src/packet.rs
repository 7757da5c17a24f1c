//! Tinfoil packet layer: the 32-byte command header that precedes every
//! request and response, and the JSON status reply used for recoverable
//! query errors.
//!
//! All integers are little-endian and the layout is tightly packed:
//! magic (4) | cmd u32 | size u64 | thread_id u32 | packet_i u16 |
//! packet_n u16 | timestamp u64.

use vstd::prelude::*;
use vstd::bytes::*;
use vstd::slice::slice_subrange;

verus! {

/// Byte length of an encoded [`CommandPacket`].
pub const COMMAND_PACKET_LEN: usize = 32;

/// The four magic bytes that open every Tinfoil command header.
pub open spec fn spec_tinfoil_magic() -> Seq<u8> {
    seq![0x12u8, 0x12u8, 0x12u8, 0x12u8]
}

/// Tinfoil's fixed 32-byte command header.
#[derive(Clone, Copy, Debug, PartialEq, Eq)]
pub struct CommandPacket {
    pub magic: [u8; 4],
    pub cmd: u32,
    pub size: u64,
    pub thread_id: u32,
    pub packet_i: u16,
    pub packet_n: u16,
    pub timestamp: u64,
}

impl CommandPacket {
    /// The 32-byte wire encoding of this header.
    pub open spec fn spec_bytes(self) -> Seq<u8> {
        self.magic@ + spec_u32_to_le_bytes(self.cmd) + spec_u64_to_le_bytes(self.size)
            + spec_u32_to_le_bytes(self.thread_id) + spec_u16_to_le_bytes(self.packet_i)
            + spec_u16_to_le_bytes(self.packet_n) + spec_u64_to_le_bytes(self.timestamp)
    }

    /// The header denoted by a 32-byte buffer, read field by field.
    pub open spec fn spec_parse(b: Seq<u8>) -> CommandPacket {
        CommandPacket {
            magic: [b[0], b[1], b[2], b[3]],
            cmd: spec_u32_from_le_bytes(b.subrange(4, 8)),
            size: spec_u64_from_le_bytes(b.subrange(8, 16)),
            thread_id: spec_u32_from_le_bytes(b.subrange(16, 20)),
            packet_i: spec_u16_from_le_bytes(b.subrange(20, 22)),
            packet_n: spec_u16_from_le_bytes(b.subrange(22, 24)),
            timestamp: spec_u64_from_le_bytes(b.subrange(24, 32)),
        }
    }

    /// Whether this header carries the Tinfoil magic bytes.
    pub open spec fn spec_magic_ok(self) -> bool {
        self.magic@ == spec_tinfoil_magic()
    }

    /// A fresh header with the given command and payload size; every other
    /// field is zero, as Tinfoil's protocol leaves them unused.
    pub fn new(cmd: u32, size: u64) -> (r: CommandPacket)
        ensures
            r == (CommandPacket {
                magic: [0x12u8, 0x12u8, 0x12u8, 0x12u8],
                cmd,
                size,
                thread_id: 0u32,
                packet_i: 0u16,
                packet_n: 0u16,
                timestamp: 0u64,
            }),
            r.spec_magic_ok(),
    {
        let r = CommandPacket {
            magic: [0x12u8, 0x12u8, 0x12u8, 0x12u8],
            cmd,
            size,
            thread_id: 0u32,
            packet_i: 0u16,
            packet_n: 0u16,
            timestamp: 0u64,
        };
        proof {
            assert(r.magic@ =~= spec_tinfoil_magic());
        }
        r
    }

    /// Encode the header into its 32-byte wire form.
    pub fn to_bytes(&self) -> (r: Vec<u8>)
        ensures
            r@ == self.spec_bytes(),
            r@.len() == 32,
    {
        let mut out: Vec<u8> = Vec::new();
        out.push(self.magic[0]);
        out.push(self.magic[1]);
        out.push(self.magic[2]);
        out.push(self.magic[3]);
        proof {
            assert(out@ =~= self.magic@);
        }
        let mut cmd_b = u32_to_le_bytes(self.cmd);
        out.append(&mut cmd_b);
        let mut size_b = u64_to_le_bytes(self.size);
        out.append(&mut size_b);
        let mut tid_b = u32_to_le_bytes(self.thread_id);
        out.append(&mut tid_b);
        let mut pi_b = u16_to_le_bytes(self.packet_i);
        out.append(&mut pi_b);
        let mut pn_b = u16_to_le_bytes(self.packet_n);
        out.append(&mut pn_b);
        let mut ts_b = u64_to_le_bytes(self.timestamp);
        out.append(&mut ts_b);
        proof {
            lemma_auto_spec_u16_to_from_le_bytes();
            lemma_auto_spec_u32_to_from_le_bytes();
            lemma_auto_spec_u64_to_from_le_bytes();
        }
        out
    }

    /// Decode a 32-byte buffer; `None` exactly when the magic bytes are not
    /// Tinfoil's.
    pub fn from_raw(buff: &[u8]) -> (r: Option<CommandPacket>)
        requires
            buff@.len() == 32,
        ensures
            r is Some <==> buff@.subrange(0, 4) == spec_tinfoil_magic(),
            r is Some ==> r->0 == Self::spec_parse(buff@),
    {
        let magic_ok = buff[0] == 0x12u8 && buff[1] == 0x12u8 && buff[2] == 0x12u8 && buff[3]
            == 0x12u8;
        proof {
            assert(magic_ok <==> buff@.subrange(0, 4) =~= spec_tinfoil_magic());
        }
        if !magic_ok {
            return None;
        }
        let p = CommandPacket {
            magic: [buff[0], buff[1], buff[2], buff[3]],
            cmd: u32_from_le_bytes(slice_subrange(buff, 4, 8)),
            size: u64_from_le_bytes(slice_subrange(buff, 8, 16)),
            thread_id: u32_from_le_bytes(slice_subrange(buff, 16, 20)),
            packet_i: u16_from_le_bytes(slice_subrange(buff, 20, 22)),
            packet_n: u16_from_le_bytes(slice_subrange(buff, 22, 24)),
            timestamp: u64_from_le_bytes(slice_subrange(buff, 24, 32)),
        };
        Some(p)
    }
}

/// The JSON status reply that answers a recoverable query error: Tinfoil
/// shows its message and the session continues.
#[derive(Debug)]
pub struct StatusResponse {
    pub success: bool,
    pub message: String,
}

impl StatusResponse {
    /// A status reply.
    pub fn new(success: bool, message: String) -> (r: StatusResponse)
        ensures
            r.success == success,
            r.message@ == message@,
    {
        StatusResponse { success, message }
    }

    /// The reply's JSON bytes.
    pub fn to_json(&self) -> (r: Vec<u8>)
        ensures
            r@ == crate::tinfoil::spec_status_json(self.success, self.message@),
    {
        crate::tinfoil::status_json(self.success, self.message.as_str())
    }
}

/// Encoding then decoding a command header gives the header back; the
/// Tinfoil layout has no padding, so the identity is exact.
pub proof fn lemma_command_packet_round_trip(p: CommandPacket)
    ensures
        p.spec_bytes().len() == 32,
        CommandPacket::spec_parse(p.spec_bytes()) == p,
{
    lemma_auto_spec_u16_to_from_le_bytes();
    lemma_auto_spec_u32_to_from_le_bytes();
    lemma_auto_spec_u64_to_from_le_bytes();
    let b = p.spec_bytes();
    assert(b.subrange(4, 8) =~= spec_u32_to_le_bytes(p.cmd));
    assert(b.subrange(8, 16) =~= spec_u64_to_le_bytes(p.size));
    assert(b.subrange(16, 20) =~= spec_u32_to_le_bytes(p.thread_id));
    assert(b.subrange(20, 22) =~= spec_u16_to_le_bytes(p.packet_i));
    assert(b.subrange(22, 24) =~= spec_u16_to_le_bytes(p.packet_n));
    assert(b.subrange(24, 32) =~= spec_u64_to_le_bytes(p.timestamp));
    let q = CommandPacket::spec_parse(b);
    assert(q.magic =~= p.magic);
    assert(q == p);
}

/// Decoding then re-encoding any 32-byte buffer reproduces the buffer:
/// every bit of the Tinfoil header is a field, so nothing is lost.
pub proof fn lemma_command_packet_re_encode(b: Seq<u8>)
    requires
        b.len() == 32,
    ensures
        CommandPacket::spec_parse(b).spec_bytes() == b,
{
    lemma_auto_spec_u16_to_from_le_bytes();
    lemma_auto_spec_u32_to_from_le_bytes();
    lemma_auto_spec_u64_to_from_le_bytes();
    let p = CommandPacket::spec_parse(b);
    assert(spec_u32_to_le_bytes(spec_u32_from_le_bytes(b.subrange(4, 8))) == b.subrange(4, 8));
    assert(spec_u64_to_le_bytes(spec_u64_from_le_bytes(b.subrange(8, 16))) == b.subrange(8, 16));
    assert(spec_u32_to_le_bytes(spec_u32_from_le_bytes(b.subrange(16, 20))) == b.subrange(16, 20));
    assert(spec_u16_to_le_bytes(spec_u16_from_le_bytes(b.subrange(20, 22))) == b.subrange(20, 22));
    assert(spec_u16_to_le_bytes(spec_u16_from_le_bytes(b.subrange(22, 24))) == b.subrange(22, 24));
    assert(spec_u64_to_le_bytes(spec_u64_from_le_bytes(b.subrange(24, 32))) == b.subrange(24, 32));
    assert(p.spec_bytes() =~= b);
}

} // verus!
