//! PFS0 archive parser.  A container opens with a fixed 16-byte header
//! (`PFS0` magic, file count, string-table size, padding), followed by
//! one 24-byte entry per file and a string table; a file's name is the
//! null/space-trimmed UTF-8 slice between consecutive string-table
//! offsets.  A valid game archive carries a `.tik` entry whose first 16
//! characters, uppercased, are the title ID.
//!
//! The file's bytes are read by the caller; parsing and validation happen
//! here.

use vstd::prelude::*;
use vstd::bytes::*;
use vstd::slice::{slice_subrange, slice_to_vec};
use vstd::string::StrSliceExecFns;
use vstd::string::StringSliceAdditionalSpecFns;
use vstd::utf8::{valid_utf8, decode_utf8};
use crate::strutil::{spec_str_suffix, str_ends_with, utf8_to_str, to_uppercase, upper_of};

verus! {

/// Number of characters of a ticket name that form the title ID.
pub const TITLE_ID_WIDTH: usize = 16;

/// The magic bytes `PFS0` that open a container header.
pub open spec fn spec_pfs0_magic() -> Seq<u8> {
    seq![0x50u8, 0x46u8, 0x53u8, 0x30u8]
}

/// Errors of the archive parser; each excludes one file from the listing.
#[derive(Debug)]
pub enum NspParsingError {
    /// Reading the archive failed; carries the I/O error's text.
    FileError(String),
    /// The header is missing, carries the wrong magic, or describes a
    /// file table or string table that does not fit the data.
    MalformedHeader,
    /// A name slice of the string table is not UTF-8; carries the slice.
    BadString(Vec<u8>),
    /// No entry name ends in `.tik`, or the ticket name is too short to
    /// hold a title ID.
    NoTicket,
    /// No content-meta entry was found.
    NoCnmt,
}

/// The fixed outer header: magic `PFS0` (4) | file count u32 |
/// string-table size u32 | pad (4).
#[derive(Clone, Copy, Debug, PartialEq, Eq)]
pub struct PFS0Header {
    pub tag: [u8; 4],
    pub n_files: u32,
    pub s_table_size: u32,
}

impl PFS0Header {
    /// The header denoted by a 16-byte buffer; the final padding word is
    /// ignored.
    pub open spec fn spec_parse(b: Seq<u8>) -> PFS0Header {
        PFS0Header {
            tag: [b[0], b[1], b[2], b[3]],
            n_files: spec_u32_from_le_bytes(b.subrange(4, 8)),
            s_table_size: spec_u32_from_le_bytes(b.subrange(8, 12)),
        }
    }

    /// Decode the first 16 bytes of a container; fails with
    /// `MalformedHeader` exactly when the magic is not `PFS0`.
    pub fn parse(bytes: &[u8]) -> (r: Result<PFS0Header, NspParsingError>)
        requires
            bytes@.len() == 16,
        ensures
            r is Ok <==> bytes@.subrange(0, 4) == spec_pfs0_magic(),
            r matches Ok(h) ==> h == Self::spec_parse(bytes@),
            r matches Err(e) ==> e is MalformedHeader,
    {
        let magic_ok = bytes[0] == 0x50u8 && bytes[1] == 0x46u8 && bytes[2] == 0x53u8 && bytes[3]
            == 0x30u8;
        proof {
            assert(magic_ok <==> bytes@.subrange(0, 4) =~= spec_pfs0_magic());
        }
        if !magic_ok {
            return Err(NspParsingError::MalformedHeader);
        }
        Ok(
            PFS0Header {
                tag: [bytes[0], bytes[1], bytes[2], bytes[3]],
                n_files: u32_from_le_bytes(slice_subrange(bytes, 4, 8)),
                s_table_size: u32_from_le_bytes(slice_subrange(bytes, 8, 12)),
            },
        )
    }
}

/// One 24-byte file entry: data offset u64 | data size u64 |
/// string-table offset u32 | reserved (4).
#[derive(Clone, Copy, Debug, PartialEq, Eq)]
pub struct FileEntry {
    pub offset: u64,
    pub size: u64,
    pub s_table_off: u32,
}

impl FileEntry {
    /// The entry denoted by a 24-byte buffer; the reserved word is
    /// ignored.
    pub open spec fn spec_parse(b: Seq<u8>) -> FileEntry {
        FileEntry {
            offset: spec_u64_from_le_bytes(b.subrange(0, 8)),
            size: spec_u64_from_le_bytes(b.subrange(8, 16)),
            s_table_off: spec_u32_from_le_bytes(b.subrange(16, 20)),
        }
    }
}

/// A parsed file of the container: its name from the string table and
/// its raw entry.
#[derive(Debug)]
pub struct File {
    pub name: String,
    pub file_header: FileEntry,
}

/// The container's file table.
#[derive(Debug)]
pub struct Files(Vec<File>);

impl View for Files {
    type V = Seq<File>;

    closed spec fn view(&self) -> Seq<File> {
        self.0@
    }
}

/// The index of the first file whose name ends with the given suffix.
pub open spec fn spec_first_with_suffix(files: Seq<File>, suf: Seq<char>) -> Option<int>
    decreases files.len(),
{
    if files.len() == 0 {
        None
    } else if spec_str_suffix(files[0].name@, suf) {
        Some(0int)
    } else {
        match spec_first_with_suffix(files.drop_first(), suf) {
            Some(i) => Some(i + 1),
            None => None,
        }
    }
}

impl Files {
    /// Wrap a parsed file table.
    pub fn from_vec(files: Vec<File>) -> (r: Files)
        ensures
            r@ == files@,
    {
        Files(files)
    }

    /// How many files the container lists.
    pub fn len(&self) -> (r: usize)
        ensures
            r == self@.len(),
    {
        self.0.len()
    }

    /// The file at a position of the table.
    pub fn get(&self, i: usize) -> (r: &File)
        requires
            i < self@.len(),
        ensures
            *r == self@[i as int],
    {
        &self.0[i]
    }

    /// The first file whose name ends with `extension`, if any.
    pub fn find_extension(&self, extension: &str) -> (r: Option<&File>)
        ensures
            match spec_first_with_suffix(self@, extension@) {
                Some(i) => r matches Some(f) && *f == self@[i],
                None => r is None,
            },
    {
        let mut i: usize = 0;
        proof {
            assert(self@.skip(0) =~= self@);
        }
        while i < self.0.len()
            invariant
                i <= self@.len(),
                forall|j: int| 0 <= j < i ==> !spec_str_suffix(self@[j].name@, extension@),
                spec_first_with_suffix(self@, extension@) == match spec_first_with_suffix(
                    self@.skip(i as int),
                    extension@,
                ) {
                    Some(k) => Some(k + i),
                    None => None::<int>,
                },
            decreases self@.len() - i,
        {
            proof {
                assert(self@.skip(i as int)[0] == self@[i as int]);
                assert(self@.skip(i as int).drop_first() =~= self@.skip(i + 1));
            }
            if str_ends_with(self.0[i].name.as_str(), extension) {
                return Some(&self.0[i]);
            }
            i = i + 1;
        }
        proof {
            assert(self@.skip(i as int) =~= Seq::<File>::empty());
        }
        None
    }
}

/// A content-meta record as it would appear once decrypted; the archive's
/// meta entry is encrypted, so nothing reads one yet.
#[derive(Clone, Copy, Debug)]
pub struct Cnmt {
    pub title_id: u64,
    pub version: u32,
    pub title_type: u8,
}

/// The parsed front matter of a container: outer header, raw string
/// table, and file table.
#[derive(Debug)]
pub struct NspHeader {
    pub pfs0_header: PFS0Header,
    pub str_table: Vec<u8>,
    pub files: Files,
}

/// A parsed container.
#[derive(Debug)]
pub struct Nsp {
    pub nsp_header: NspHeader,
}

/// The file entry described at position `i` of the body (the bytes that
/// follow the outer header).
pub open spec fn spec_entry_at(body: Seq<u8>, i: int) -> FileEntry {
    FileEntry::spec_parse(body.subrange(24 * i, 24 * i + 24))
}

/// Where the name of entry `i` ends in the string table: at the next
/// entry's offset, or at the end of the table for the last entry.
pub open spec fn spec_name_end(h: PFS0Header, body: Seq<u8>, i: int) -> int {
    if i == h.n_files as int - 1 {
        h.s_table_size as int
    } else {
        spec_entry_at(body, i + 1).s_table_off as int
    }
}

/// The string-table slice holding the name of entry `i`.
pub open spec fn spec_name_bytes(h: PFS0Header, body: Seq<u8>, i: int) -> Seq<u8> {
    body.skip(24 * h.n_files as int).subrange(
        spec_entry_at(body, i).s_table_off as int,
        spec_name_end(h, body, i),
    )
}

/// Whether a character is trimmed from the end of an entry name.
pub open spec fn spec_is_name_pad(c: char) -> bool {
    c as u32 == 0 || c == ' '
}

/// An entry name with its trailing null and space characters removed.
pub open spec fn spec_trim_end(s: Seq<char>) -> Seq<char>
    decreases s.len(),
{
    if s.len() > 0 && spec_is_name_pad(s.last())  {
        spec_trim_end(s.drop_last())
    } else {
        s
    }
}

/// Structural validity of a container body against its header: the body
/// holds exactly the file table and string table, data offsets strictly
/// increase, and every name slice lies within the string table.
pub open spec fn spec_structure_ok(h: PFS0Header, body: Seq<u8>) -> bool {
    let n = h.n_files as int;
    let t = h.s_table_size as int;
    &&& body.len() == 24 * n + t
    &&& forall|i: int|
        0 <= i < n - 1 ==> (#[trigger] spec_entry_at(body, i)).offset < spec_entry_at(
            body,
            i + 1,
        ).offset
    &&& forall|i: int|
        0 <= i < n ==> (#[trigger] spec_entry_at(body, i)).s_table_off as int <= spec_name_end(
            h,
            body,
            i,
        ) <= t
}

/// Full validity: the structure is sound and every name slice is UTF-8.
pub open spec fn spec_body_ok(h: PFS0Header, body: Seq<u8>) -> bool {
    &&& spec_structure_ok(h, body)
    &&& forall|i: int| 0 <= i < h.n_files as int ==> valid_utf8(#[trigger] spec_name_bytes(h, body, i))
}

impl Nsp {
    /// Whether this container is what parsing `body` under `header`
    /// yields: the header is kept, the string table is the body's tail,
    /// and each file pairs the entry at its position with the trimmed
    /// decoding of its name slice.
    pub open spec fn spec_matches(self, h: PFS0Header, body: Seq<u8>) -> bool {
        let files = self.nsp_header.files@;
        &&& self.nsp_header.pfs0_header == h
        &&& self.nsp_header.str_table@ == body.skip(24 * h.n_files as int)
        &&& files.len() == h.n_files as int
        &&& forall|i: int|
            0 <= i < files.len() ==> (#[trigger] files[i]).file_header == spec_entry_at(body, i)
        &&& forall|i: int|
            0 <= i < files.len() ==> (#[trigger] files[i]).name@ == spec_trim_end(
                decode_utf8(spec_name_bytes(h, body, i)),
            )
    }

    /// Parse a container's body: the bytes that follow the 16-byte outer
    /// header, holding the file table and the string table.  Fails with
    /// `MalformedHeader` exactly when the structure is unsound, and with
    /// `BadString` exactly when the structure is sound but some name
    /// slice is not UTF-8.
    pub fn from_parts(header: PFS0Header, body: &[u8]) -> (r: Result<Nsp, NspParsingError>)
        ensures
            r is Ok <==> spec_body_ok(header, body@),
            r matches Ok(nsp) ==> nsp.spec_matches(header, body@),
            r matches Err(e) ==> !(e is MalformedHeader) ==> e is BadString,
            r matches Err(e) ==> (e is MalformedHeader <==> !spec_structure_ok(header, body@)),
            r matches Err(e) ==> e matches NspParsingError::BadString(bs) ==> exists|i: int|
                0 <= i < header.n_files as int && !valid_utf8(
                    #[trigger] spec_name_bytes(header, body@, i),
                ) && bs@ == spec_name_bytes(header, body@, i),
    {
        let n = header.n_files as usize;
        let t = header.s_table_size as usize;
        if !(body.len() as u64 == 24u64 * (header.n_files as u64) + (header.s_table_size as u64)) {
            proof {
                assert(!spec_structure_ok(header, body@));
            }
            return Err(NspParsingError::MalformedHeader);
        }
        proof {
            assert(body@.len() == 24 * (n as int) + t as int);
        }
        let body_len = body.len();
        // Read the file table.
        let mut entries: Vec<FileEntry> = Vec::new();
        let mut i: usize = 0;
        while i < n
            invariant
                i <= n,
                24 * n + t == body@.len(),
                body@.len() == body_len,
                entries@.len() == i,
                forall|j: int| 0 <= j < i ==> entries@[j] == spec_entry_at(body@, j),
            decreases n - i,
        {
            let off: usize = 24 * i;
            let e_bytes = slice_subrange(body, off, off + 24);
            let e = FileEntry {
                offset: u64_from_le_bytes(slice_subrange(e_bytes, 0, 8)),
                size: u64_from_le_bytes(slice_subrange(e_bytes, 8, 16)),
                s_table_off: u32_from_le_bytes(slice_subrange(e_bytes, 16, 20)),
            };
            proof {
                assert(e_bytes@.subrange(0, 8) =~= body@.subrange(24 * i as int, 24 * i as int
                    + 24).subrange(0, 8));
                assert(e_bytes@.subrange(8, 16) =~= body@.subrange(24 * i as int, 24 * i as int
                    + 24).subrange(8, 16));
                assert(e_bytes@.subrange(16, 20) =~= body@.subrange(24 * i as int, 24 * i as int
                    + 24).subrange(16, 20));
                assert(e == spec_entry_at(body@, i as int));
            }
            entries.push(e);
            i = i + 1;
        }
        // Data offsets must strictly increase.
        let mut i: usize = 1;
        while i < n
            invariant
                n >= 1 ==> 1 <= i <= n,
                n == header.n_files as int,
                t == header.s_table_size as int,
                24 * n + t == body@.len(),
                entries@.len() == n,
                forall|j: int| 0 <= j < n ==> entries@[j] == spec_entry_at(body@, j),
                forall|j: int| 0 <= j < i - 1 ==> (#[trigger] entries@[j]).offset < entries@[j
                    + 1].offset,
            decreases n - i,
        {
            if entries[i - 1].offset >= entries[i].offset {
                proof {
                    assert(spec_entry_at(body@, i - 1).offset >= spec_entry_at(
                        body@,
                        i as int,
                    ).offset);
                    assert(!spec_structure_ok(header, body@));
                }
                return Err(NspParsingError::MalformedHeader);
            }
            i = i + 1;
        }
        // Name slices must lie within the string table.
        let mut i: usize = 0;
        while i < n
            invariant
                i <= n,
                n == header.n_files as int,
                t == header.s_table_size as int,
                24 * n + t == body@.len(),
                entries@.len() == n,
                forall|j: int| 0 <= j < n ==> entries@[j] == spec_entry_at(body@, j),
                forall|j: int|
                    0 <= j < i ==> (#[trigger] entries@[j]).s_table_off as int <= spec_name_end(
                        header,
                        body@,
                        j,
                    ) <= header.s_table_size as int,
            decreases n - i,
        {
            let end: u32 = if i == n - 1 {
                header.s_table_size
            } else {
                entries[i + 1].s_table_off
            };
            if !(entries[i].s_table_off <= end && end <= header.s_table_size) {
                proof {
                    assert(!(spec_entry_at(body@, i as int).s_table_off as int <= spec_name_end(
                        header,
                        body@,
                        i as int,
                    ) <= header.s_table_size as int));
                    assert(!spec_structure_ok(header, body@));
                }
                return Err(NspParsingError::MalformedHeader);
            }
            i = i + 1;
        }
        proof {
            assert(spec_structure_ok(header, body@));
        }
        // Slice the names out of the string table, decode, and trim.
        let table = slice_subrange(body, 24 * n, body.len());
        proof {
            assert(table@ =~= body@.skip(24 * n as int));
        }
        let mut files: Vec<File> = Vec::new();
        let mut i: usize = 0;
        while i < n
            invariant
                i <= n,
                entries@.len() == n,
                24 * n + t == body@.len(),
                t == header.s_table_size as int,
                n == header.n_files as int,
                table@ == body@.skip(24 * n as int),
                spec_structure_ok(header, body@),
                forall|j: int| 0 <= j < n ==> entries@[j] == spec_entry_at(body@, j),
                files@.len() == i,
                forall|j: int|
                    0 <= j < i ==> (#[trigger] files@[j]).file_header == spec_entry_at(body@, j),
                forall|j: int|
                    0 <= j < i ==> (#[trigger] files@[j]).name@ == spec_trim_end(
                        decode_utf8(spec_name_bytes(header, body@, j)),
                    ),
                forall|j: int|
                    0 <= j < i ==> valid_utf8(#[trigger] spec_name_bytes(header, body@, j)),
            decreases n - i,
        {
            let start = entries[i].s_table_off as usize;
            let end: usize = if i == n - 1 {
                t
            } else {
                entries[i + 1].s_table_off as usize
            };
            let name_bytes = slice_subrange(table, start, end);
            proof {
                assert(name_bytes@ =~= spec_name_bytes(header, body@, i as int));
            }
            let name = match utf8_to_str(name_bytes) {
                Some(s) => {
                    proof {
                        vstd::utf8::encode_utf8_decode_utf8(s@);
                    }
                    trim_name(s)
                },
                None => {
                    return Err(NspParsingError::BadString(slice_to_vec(name_bytes)));
                },
            };
            files.push(File { name, file_header: entries[i] });
            i = i + 1;
        }
        let nsp = Nsp {
            nsp_header: NspHeader {
                pfs0_header: header,
                str_table: slice_to_vec(table),
                files: Files::from_vec(files),
            },
        };
        proof {
            assert(nsp.spec_matches(header, body@));
        }
        Ok(nsp)
    }

    /// The container's title ID, when it has one: the first 16 characters
    /// of the first entry name ending in `.tik`, uppercased.
    pub open spec fn spec_title_id(self) -> Option<Seq<char>> {
        match spec_first_with_suffix(self.nsp_header.files@, ".tik"@) {
            Some(i) => {
                if self.nsp_header.files@[i].name@.len() >= TITLE_ID_WIDTH as int {
                    Some(upper_of(self.nsp_header.files@[i].name@.take(TITLE_ID_WIDTH as int)))
                } else {
                    None
                }
            },
            None => None,
        }
    }

    /// Extract the title ID: the first 16 characters of the first entry
    /// name ending in `.tik`, uppercased.  Fails with `NoTicket` when no
    /// such entry exists or its name is shorter than a title ID.
    pub fn title_id(&self) -> (r: Result<String, NspParsingError>)
        ensures
            match self.spec_title_id() {
                Some(t) => r matches Ok(s) && s@ == t,
                None => r matches Err(e) && e is NoTicket,
            },
    {
        let tik = self.nsp_header.files.find_extension(".tik");
        match tik {
            None => Err(NspParsingError::NoTicket),
            Some(f) => {
                if f.name.as_str().unicode_len() < TITLE_ID_WIDTH {
                    Err(NspParsingError::NoTicket)
                } else {
                    let prefix = f.name.as_str().substring_char(0, TITLE_ID_WIDTH);
                    proof {
                        assert(prefix@ =~= f.name@.take(TITLE_ID_WIDTH as int));
                    }
                    Ok(to_uppercase(prefix))
                }
            },
        }
    }
}

/// In every successfully parsed container the file-entry data offsets
/// are strictly increasing across the whole table, and every entry name
/// is the decoding of a valid UTF-8 slice of the string table.
pub proof fn lemma_parsed_container_sound(nsp: Nsp, h: PFS0Header, body: Seq<u8>)
    requires
        spec_body_ok(h, body),
        nsp.spec_matches(h, body),
    ensures
        forall|i: int, j: int|
            0 <= i < j < nsp.nsp_header.files@.len() ==> (#[trigger] nsp.nsp_header.files@[i]).file_header.offset
                < (#[trigger] nsp.nsp_header.files@[j]).file_header.offset,
        forall|i: int|
            0 <= i < nsp.nsp_header.files@.len() ==> valid_utf8(
                #[trigger] spec_name_bytes(h, body, i),
            ) && nsp.nsp_header.files@[i].name@ == spec_trim_end(
                decode_utf8(spec_name_bytes(h, body, i)),
            ),
{
    let files = nsp.nsp_header.files@;
    assert forall|i: int, j: int| 0 <= i < j < files.len() implies (
    #[trigger] files[i]).file_header.offset < (#[trigger] files[j]).file_header.offset by {
        lemma_offsets_increasing(h, body, i, j);
    }
}

/// Strictly increasing adjacent offsets give strictly increasing offsets
/// across any distance.
proof fn lemma_offsets_increasing(h: PFS0Header, body: Seq<u8>, i: int, j: int)
    requires
        spec_structure_ok(h, body),
        0 <= i < j < h.n_files as int,
    ensures
        spec_entry_at(body, i).offset < spec_entry_at(body, j).offset,
    decreases j - i,
{
    if j == i + 1 {
    } else {
        lemma_offsets_increasing(h, body, i, j - 1);
    }
}

/// Trim the trailing null and space characters from an entry name.
fn trim_name(s: &str) -> (r: String)
    ensures
        r@ == spec_trim_end(s@),
{
    let n = s.unicode_len();
    let mut end: usize = n;
    proof {
        assert(s@.take(n as int) =~= s@);
    }
    while end > 0
        invariant
            end <= n,
            n == s@.len(),
            spec_trim_end(s@) == spec_trim_end(s@.take(end as int)),
        ensures
            end <= n,
            n == s@.len(),
            spec_trim_end(s@) == spec_trim_end(s@.take(end as int)),
            end == 0 || !spec_is_name_pad(s@[end - 1]),
        decreases end,
    {
        let c = s.get_char(end - 1);
        if !(c as u32 == 0 || c == ' ') {
            break;
        }
        proof {
            assert(s@.take(end as int).last() == s@[end - 1]);
            assert(s@.take(end as int).drop_last() =~= s@.take(end - 1));
        }
        end = end - 1;
    }
    proof {
        if end > 0 {
            assert(s@.take(end as int).last() == s@[end - 1]);
        }
        assert(spec_trim_end(s@.take(end as int)) == s@.take(end as int));
    }
    let out = s.substring_char(0, end);
    proof {
        assert(out@ =~= s@.take(end as int));
    }
    out.to_owned()
}

} // verus!
