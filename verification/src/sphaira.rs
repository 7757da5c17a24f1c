//! Sphaira packet layer: the 16-byte list-response header pushed once on
//! connect, and the 32-byte command and file-range packets of the command
//! loop.  All integers are little-endian and the layouts are packed.

use vstd::prelude::*;
use vstd::bytes::*;
use vstd::slice::slice_subrange;
use vstd::utf8::encode_utf8;
use crate::device::SwitchCommError;
use crate::json::push_str_bytes;
use crate::listing::Listing;
use crate::writer::{ChunkStatus, write_next_chunk};

verus! {

/// The magic bytes `TUL0` that open a list-response header.
pub open spec fn spec_list_magic() -> Seq<u8> {
    seq![0x54u8, 0x55u8, 0x4Cu8, 0x30u8]
}

/// The magic bytes `TUC0` that open a command packet.
pub open spec fn spec_cmd_magic() -> Seq<u8> {
    seq![0x54u8, 0x55u8, 0x43u8, 0x30u8]
}

/// A sequence of zero padding bytes.
pub open spec fn spec_pad(n: nat) -> Seq<u8> {
    Seq::new(n, |i: int| 0u8)
}

/// The commands a Sphaira client may send.
#[derive(PartialEq, Eq, Structural, Clone, Copy, Debug)]
pub enum CmdType {
    /// End the session normally.
    Exit,
    /// Request a byte range of a listed file.
    FileRange,
}

impl CmdType {
    /// The command identifier on the wire: 0 is `Exit`, 1 is `FileRange`.
    pub fn cmd_id(&self) -> (r: u32)
        ensures
            *self == CmdType::Exit ==> r == 0,
            *self == CmdType::FileRange ==> r == 1,
    {
        match self {
            CmdType::Exit => 0,
            CmdType::FileRange => 1,
        }
    }

    /// Map a wire command identifier back to a command; identifiers other
    /// than 0 and 1 are unknown.
    pub fn from_cmd_id(id: u32) -> (r: Option<CmdType>)
        ensures
            id == 0 ==> r == Some(CmdType::Exit),
            id == 1 ==> r == Some(CmdType::FileRange),
            id > 1 ==> r is None,
    {
        if id == 0 {
            Some(CmdType::Exit)
        } else if id == 1 {
            Some(CmdType::FileRange)
        } else {
            None
        }
    }
}

/// Header of the file list pushed once when a Sphaira client connects:
/// magic `TUL0` (4) | payload length u32 | pad (8).
#[derive(Clone, Copy, Debug, PartialEq, Eq)]
pub struct ListPacketResponse {
    pub packet_type: [u8; 4],
    pub len: u32,
}

impl ListPacketResponse {
    /// The 16-byte wire encoding of this header.
    pub open spec fn spec_bytes(self) -> Seq<u8> {
        self.packet_type@ + spec_u32_to_le_bytes(self.len) + spec_pad(8)
    }

    /// A list-response header announcing a payload of `len` bytes.
    pub fn new(len: u32) -> (r: ListPacketResponse)
        ensures
            r.packet_type@ == spec_list_magic(),
            r.len == len,
    {
        let r = ListPacketResponse { packet_type: [0x54u8, 0x55u8, 0x4Cu8, 0x30u8], len };
        proof {
            assert(r.packet_type@ =~= spec_list_magic());
        }
        r
    }

    /// Encode the header into its 16-byte wire form.
    pub fn to_bytes(&self) -> (r: Vec<u8>)
        ensures
            r@ == self.spec_bytes(),
            r@.len() == 16,
    {
        let mut out: Vec<u8> = Vec::new();
        out.push(self.packet_type[0]);
        out.push(self.packet_type[1]);
        out.push(self.packet_type[2]);
        out.push(self.packet_type[3]);
        proof {
            assert(out@ =~= self.packet_type@);
        }
        let mut len_b = u32_to_le_bytes(self.len);
        out.append(&mut len_b);
        let mut pad = vec![0u8; 8];
        proof {
            assert(pad@ =~= spec_pad(8));
        }
        out.append(&mut pad);
        proof {
            assert(out@ =~= self.spec_bytes());
        }
        out
    }
}

/// A Sphaira command packet: magic `TUC0` (4) | cmd_type u8 | pad (3) |
/// cmd_id u32 | data_size u64 | pad (12).
#[derive(Clone, Copy, Debug, PartialEq, Eq)]
pub struct CmdPacket {
    pub magic: [u8; 4],
    pub cmd_type: u8,
    pub cmd_id: u32,
    pub data_size: u64,
}

impl CmdPacket {
    /// The 32-byte wire encoding of this packet.
    pub open spec fn spec_bytes(self) -> Seq<u8> {
        self.magic@ + seq![self.cmd_type] + spec_pad(3) + spec_u32_to_le_bytes(self.cmd_id)
            + spec_u64_to_le_bytes(self.data_size) + spec_pad(12)
    }

    /// The packet denoted by a 32-byte buffer; the padding bytes carry no
    /// information and are ignored.
    pub open spec fn spec_parse(b: Seq<u8>) -> CmdPacket {
        CmdPacket {
            magic: [b[0], b[1], b[2], b[3]],
            cmd_type: b[4],
            cmd_id: spec_u32_from_le_bytes(b.subrange(8, 12)),
            data_size: spec_u64_from_le_bytes(b.subrange(12, 20)),
        }
    }

    /// Whether this packet carries the `TUC0` magic bytes.
    pub open spec fn spec_magic_ok(self) -> bool {
        self.magic@ == spec_cmd_magic()
    }

    /// An outbound command packet with the given identifier and payload
    /// size, carrying the `TUC0` magic.
    pub fn new(cmd_id: u32, data_size: u64) -> (r: CmdPacket)
        ensures
            r == (CmdPacket { magic: [0x54u8, 0x55u8, 0x43u8, 0x30u8], cmd_type: 0u8, cmd_id, data_size }),
            r.spec_magic_ok(),
    {
        let r = CmdPacket { magic: [0x54u8, 0x55u8, 0x43u8, 0x30u8], cmd_type: 0u8, cmd_id, data_size };
        proof {
            assert(r.magic@ =~= spec_cmd_magic());
        }
        r
    }

    /// Encode the packet into its 32-byte wire form.
    pub fn to_bytes(&self) -> (r: Vec<u8>)
        ensures
            r@ == self.spec_bytes(),
            r@.len() == 32,
    {
        let mut out: Vec<u8> = Vec::new();
        out.push(self.magic[0]);
        out.push(self.magic[1]);
        out.push(self.magic[2]);
        out.push(self.magic[3]);
        proof {
            assert(out@ =~= self.magic@);
        }
        out.push(self.cmd_type);
        let mut pad0 = vec![0u8; 3];
        proof {
            assert(pad0@ =~= spec_pad(3));
        }
        out.append(&mut pad0);
        let mut id_b = u32_to_le_bytes(self.cmd_id);
        out.append(&mut id_b);
        let mut size_b = u64_to_le_bytes(self.data_size);
        out.append(&mut size_b);
        let mut pad1 = vec![0u8; 12];
        proof {
            assert(pad1@ =~= spec_pad(12));
        }
        out.append(&mut pad1);
        proof {
            assert(out@ =~= self.spec_bytes());
        }
        out
    }

    /// Decode a 32-byte buffer; fails with `BadMagic` exactly when the
    /// buffer does not open with `TUC0`.
    pub fn from_raw(buff: &[u8]) -> (r: Result<CmdPacket, SwitchCommError>)
        requires
            buff@.len() == 32,
        ensures
            r is Ok <==> buff@.subrange(0, 4) == spec_cmd_magic(),
            r matches Ok(p) ==> p == Self::spec_parse(buff@),
            r matches Err(e) ==> e is BadMagic,
    {
        let magic_ok = buff[0] == 0x54u8 && buff[1] == 0x55u8 && buff[2] == 0x43u8 && buff[3]
            == 0x30u8;
        proof {
            assert(magic_ok <==> buff@.subrange(0, 4) =~= spec_cmd_magic());
        }
        if !magic_ok {
            return Err(SwitchCommError::BadMagic);
        }
        Ok(
            CmdPacket {
                magic: [buff[0], buff[1], buff[2], buff[3]],
                cmd_type: buff[4],
                cmd_id: u32_from_le_bytes(slice_subrange(buff, 8, 12)),
                data_size: u64_from_le_bytes(slice_subrange(buff, 12, 20)),
            },
        )
    }
}

/// Encoding then decoding a command packet gives the packet back.
pub proof fn lemma_cmd_packet_round_trip(p: CmdPacket)
    ensures
        p.spec_bytes().len() == 32,
        CmdPacket::spec_parse(p.spec_bytes()) == p,
{
    lemma_auto_spec_u32_to_from_le_bytes();
    lemma_auto_spec_u64_to_from_le_bytes();
    let b = p.spec_bytes();
    assert(b.subrange(8, 12) =~= spec_u32_to_le_bytes(p.cmd_id));
    assert(b.subrange(12, 20) =~= spec_u64_to_le_bytes(p.data_size));
    let q = CmdPacket::spec_parse(b);
    assert(q.magic =~= p.magic);
    assert(q == p);
}

/// Decoding then re-encoding a 32-byte buffer reproduces it everywhere
/// but on the padding bytes, which re-encode as zero.
pub proof fn lemma_cmd_packet_re_encode(b: Seq<u8>)
    requires
        b.len() == 32,
    ensures
        CmdPacket::spec_parse(b).spec_bytes().len() == 32,
        forall|i: int|
            0 <= i < 32 && !(5 <= i < 8) && !(20 <= i < 32) ==> CmdPacket::spec_parse(
                b,
            ).spec_bytes()[i] == b[i],
{
    lemma_auto_spec_u32_to_from_le_bytes();
    lemma_auto_spec_u64_to_from_le_bytes();
    let p = CmdPacket::spec_parse(b);
    assert(spec_u32_to_le_bytes(spec_u32_from_le_bytes(b.subrange(8, 12))) == b.subrange(8, 12));
    assert(spec_u64_to_le_bytes(spec_u64_from_le_bytes(b.subrange(12, 20))) == b.subrange(12, 20));
    assert forall|i: int| 0 <= i < 32 && !(5 <= i < 8) && !(20 <= i < 32) implies p.spec_bytes()[i]
        == b[i] by {
        if 8 <= i < 12 {
            assert(p.spec_bytes()[i] == b.subrange(8, 12)[i - 8]);
        } else if 12 <= i < 20 {
            assert(p.spec_bytes()[i] == b.subrange(12, 20)[i - 12]);
        }
    }
}

/// A Sphaira file-range request: range_size u64 | range_offset u64 |
/// name_len u64 | pad (8); `name_len` bytes of UTF-8 path follow it on
/// the wire.
#[derive(Clone, Copy, Debug, PartialEq, Eq)]
pub struct FileRangePacket {
    pub range_size: u64,
    pub range_offset: u64,
    pub name_len: u64,
}

impl FileRangePacket {
    /// The 32-byte wire encoding of this packet.
    pub open spec fn spec_bytes(self) -> Seq<u8> {
        spec_u64_to_le_bytes(self.range_size) + spec_u64_to_le_bytes(self.range_offset)
            + spec_u64_to_le_bytes(self.name_len) + spec_pad(8)
    }

    /// The packet denoted by a 32-byte buffer.
    pub open spec fn spec_parse(b: Seq<u8>) -> FileRangePacket {
        FileRangePacket {
            range_size: spec_u64_from_le_bytes(b.subrange(0, 8)),
            range_offset: spec_u64_from_le_bytes(b.subrange(8, 16)),
            name_len: spec_u64_from_le_bytes(b.subrange(16, 24)),
        }
    }

    /// A file-range request for `range_size` bytes at `range_offset` of a
    /// file whose path takes `name_len` bytes.
    pub fn new(range_size: u64, range_offset: u64, name_len: u64) -> (r: FileRangePacket)
        ensures
            r == (FileRangePacket { range_size, range_offset, name_len }),
    {
        FileRangePacket { range_size, range_offset, name_len }
    }

    /// Encode the packet into its 32-byte wire form.
    pub fn to_bytes(&self) -> (r: Vec<u8>)
        ensures
            r@ == self.spec_bytes(),
            r@.len() == 32,
    {
        let mut out = u64_to_le_bytes(self.range_size);
        let mut off_b = u64_to_le_bytes(self.range_offset);
        out.append(&mut off_b);
        let mut len_b = u64_to_le_bytes(self.name_len);
        out.append(&mut len_b);
        let mut pad = vec![0u8; 8];
        proof {
            assert(pad@ =~= spec_pad(8));
        }
        out.append(&mut pad);
        proof {
            assert(out@ =~= self.spec_bytes());
        }
        out
    }

    /// Decode a 32-byte buffer; a file-range packet carries no magic, so
    /// decoding cannot fail.
    pub fn from_raw(buff: &[u8]) -> (r: FileRangePacket)
        requires
            buff@.len() == 32,
        ensures
            r == Self::spec_parse(buff@),
    {
        FileRangePacket {
            range_size: u64_from_le_bytes(slice_subrange(buff, 0, 8)),
            range_offset: u64_from_le_bytes(slice_subrange(buff, 8, 16)),
            name_len: u64_from_le_bytes(slice_subrange(buff, 16, 24)),
        }
    }
}

/// Encoding then decoding a file-range packet gives the packet back.
pub proof fn lemma_file_range_packet_round_trip(p: FileRangePacket)
    ensures
        p.spec_bytes().len() == 32,
        FileRangePacket::spec_parse(p.spec_bytes()) == p,
{
    lemma_auto_spec_u64_to_from_le_bytes();
    let b = p.spec_bytes();
    assert(b.subrange(0, 8) =~= spec_u64_to_le_bytes(p.range_size));
    assert(b.subrange(8, 16) =~= spec_u64_to_le_bytes(p.range_offset));
    assert(b.subrange(16, 24) =~= spec_u64_to_le_bytes(p.name_len));
    assert(FileRangePacket::spec_parse(b) == p);
}

/// The file list pushed on connect: every file-path key of the listing,
/// each terminated by a newline, in insertion order.
pub open spec fn spec_listing_payload(keys: Seq<Seq<char>>) -> Seq<u8>
    decreases keys.len(),
{
    if keys.len() == 0 {
        Seq::empty()
    } else {
        encode_utf8(keys[0]) + seq![10u8] + spec_listing_payload(keys.drop_first())
    }
}

/// The payload grows by one newline-terminated name per key.
proof fn lemma_listing_payload_push(keys: Seq<Seq<char>>, k: Seq<char>)
    ensures
        spec_listing_payload(keys.push(k)) == spec_listing_payload(keys) + encode_utf8(k)
            + seq![10u8],
    decreases keys.len(),
{
    let s2 = keys.push(k);
    if keys.len() == 0 {
        assert(s2[0] == k);
        assert(s2.drop_first() =~= Seq::<Seq<char>>::empty());
        assert(spec_listing_payload(s2.drop_first()) =~= Seq::<u8>::empty());
        assert(spec_listing_payload(s2) == encode_utf8(k) + seq![10u8] + spec_listing_payload(
            s2.drop_first(),
        ));
        assert(spec_listing_payload(s2) =~= spec_listing_payload(keys) + encode_utf8(k)
            + seq![10u8]);
    } else {
        assert(s2[0] == keys[0]);
        assert(s2.drop_first() =~= keys.drop_first().push(k));
        lemma_listing_payload_push(keys.drop_first(), k);
        assert(encode_utf8(keys[0]) + seq![10u8] + (spec_listing_payload(keys.drop_first())
            + encode_utf8(k) + seq![10u8]) =~= (encode_utf8(keys[0]) + seq![10u8]
            + spec_listing_payload(keys.drop_first())) + encode_utf8(k) + seq![10u8]);
    }
}

/// Build the newline-delimited file list of a listing.
pub fn listing_payload(listing: &Listing) -> (r: Vec<u8>)
    requires
        listing.wf(),
    ensures
        r@ == spec_listing_payload(listing.file_to_id.key_seq()),
{
    let ghost keys = listing.file_to_id.key_seq();
    let mut out: Vec<u8> = Vec::new();
    let m = listing.file_map().len();
    proof {
        assert(keys.take(0) =~= Seq::<Seq<char>>::empty());
    }
    let mut i: usize = 0;
    while i < m
        invariant
            i <= m,
            m == keys.len(),
            keys == listing.file_to_id.key_seq(),
            listing.wf(),
            out@ == spec_listing_payload(keys.take(i as int)),
        decreases m - i,
    {
        let k = listing.file_map().key_at(i);
        push_str_bytes(&mut out, k.as_str());
        out.push(10);
        proof {
            lemma_listing_payload_push(keys.take(i as int), keys[i as int]);
            assert(keys.take(i as int).push(keys[i as int]) =~= keys.take(i + 1));
            assert(out@ =~= spec_listing_payload(keys.take(i + 1)));
        }
        i = i + 1;
    }
    proof {
        assert(keys.take(m as int) =~= keys);
    }
    out
}

/// The full greeting a Sphaira session opens with: a list-response
/// header announcing the payload's byte length, then the payload.
/// `None` when the payload does not fit the header's 32-bit length.
pub fn sphaira_greeting(listing: &Listing) -> (r: Option<Vec<u8>>)
    requires
        listing.wf(),
    ensures
        ({
            let payload = spec_listing_payload(listing.file_to_id.key_seq());
            if payload.len() <= u32::MAX {
                r matches Some(b) && b@ == (ListPacketResponse {
                    packet_type: [0x54u8, 0x55u8, 0x4Cu8, 0x30u8],
                    len: payload.len() as u32,
                }).spec_bytes() + payload
            } else {
                r is None
            }
        }),
{
    let mut payload = listing_payload(listing);
    if payload.len() as u64 > 0xFFFF_FFFFu64 {
        return None;
    }
    let header = ListPacketResponse::new(payload.len() as u32);
    let mut out = header.to_bytes();
    out.append(&mut payload);
    Some(out)
}

/// The header of a file-range response: command identifier 1 (the
/// file-range command) and the request's payload size.
pub open spec fn spec_range_header(data_size: u64) -> Seq<u8> {
    (CmdPacket {
        magic: [0x54u8, 0x55u8, 0x43u8, 0x30u8],
        cmd_type: 0u8,
        cmd_id: 1u32,
        data_size,
    }).spec_bytes()
}

/// A complete file-range response: the header, then the range's bytes.
pub open spec fn spec_file_range_response(d: Seq<u8>, data_size: u64) -> Seq<u8> {
    spec_range_header(data_size) + d
}

/// Answer a file-range request over an in-memory range: one header, then
/// the bytes, streamed chunk by chunk until the writer reports the end.
pub fn file_range_response(data: &Vec<u8>, data_size: u64) -> (r: Vec<u8>)
    ensures
        r@ == spec_file_range_response(data@, data_size),
{
    let header = CmdPacket::new(1, data_size);
    let mut out = header.to_bytes();
    let ghost hdr = out@;
    let mut pos: usize = 0;
    loop
        invariant_except_break
            pos <= data@.len(),
            out@ == hdr + data@.take(pos as int),
            hdr == spec_range_header(data_size),
        ensures
            out@ == hdr + data@,
            hdr == spec_range_header(data_size),
        decreases data@.len() - pos,
    {
        let ghost prev = pos as int;
        let st = write_next_chunk(data, &mut pos, &mut out);
        proof {
            assert(data@.subrange(prev, pos as int) =~= data@.take(pos as int).skip(prev));
            assert(hdr + data@.take(prev) + data@.subrange(prev, pos as int) =~= hdr + data@.take(
                pos as int,
            ));
        }
        if st == ChunkStatus::End {
            proof {
                assert(data@.take(pos as int) =~= data@);
            }
            break;
        }
    }
    out
}

/// Every file-range response opens with a command packet that parses
/// back to the `TUC0` magic, command identifier 1, and the request's
/// payload size; exactly the range's bytes follow it.
pub proof fn lemma_file_range_response_shape(d: Seq<u8>, data_size: u64)
    ensures
        spec_file_range_response(d, data_size).len() == 32 + d.len(),
        CmdPacket::spec_parse(spec_file_range_response(d, data_size).subrange(0, 32)).magic@
            == spec_cmd_magic(),
        CmdPacket::spec_parse(spec_file_range_response(d, data_size).subrange(0, 32)).cmd_id == 1,
        CmdPacket::spec_parse(spec_file_range_response(d, data_size).subrange(0, 32)).data_size
            == data_size,
        spec_file_range_response(d, data_size).skip(32) == d,
{
    let p = CmdPacket {
        magic: [0x54u8, 0x55u8, 0x43u8, 0x30u8],
        cmd_type: 0u8,
        cmd_id: 1u32,
        data_size,
    };
    lemma_cmd_packet_round_trip(p);
    assert(spec_file_range_response(d, data_size).subrange(0, 32) =~= p.spec_bytes());
    assert(spec_file_range_response(d, data_size).skip(32) =~= d);
    assert(p.magic@ =~= spec_cmd_magic());
}

/// Errors of a Sphaira session.  A transport error ends the session;
/// the others are logged and the command loop continues.
#[derive(Debug)]
pub enum SphairaError {
    /// The underlying transport failed.
    SwitchComm(SwitchCommError),
    /// A file-range request named a file with non-UTF-8 bytes.
    BadFileName,
    /// Opening or reading the requested file failed; carries the error's
    /// text.
    IoError(String),
}

} // verus!
