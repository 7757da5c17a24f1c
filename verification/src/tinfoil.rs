//! The Tinfoil query router.  A session is ping-pong: a 32-byte command
//! header announces a UTF-8 query payload of shape
//! `/api/<req>/<query...>`; the router answers with framed JSON or a
//! chunked file range.  Transport errors are fatal; query errors are
//! answered with a JSON status and the session continues.

use vstd::prelude::*;
use vstd::string::StrSliceExecFns;
use vstd::string::StringSliceAdditionalSpecFns;
use vstd::string::StringExecFns;
use vstd::utf8::{valid_utf8, decode_utf8, encode_utf8};
use crate::CHUNK_SIZE;
use crate::device::SwitchCommError;
use crate::game::Game;
use crate::json::{
    spec_dec,
    spec_json_string,
    push_dec,
    push_json_string,
    push_str_bytes,
};
use crate::listing::{Listing, ListingIndex};
use crate::packet::{CommandPacket, spec_tinfoil_magic};
use crate::strutil::{
    spec_find_char,
    find_char,
    spec_is_u64_literal,
    spec_dec_digits,
    digits_val,
    parse_u64,
    str_eq,
    utf8_to_str,
};
use crate::writer::{ChunkStatus, write_next_chunk};

verus! {

/// The recoverable query errors; each is answered with a JSON status
/// response carrying its message, and the session continues.
#[derive(Debug)]
pub enum TinfoilQueryErrorKind {
    /// The payload is not of the `/{endpoint}/{req}/...` shape; carries
    /// the payload.
    UnsupportedCmd(String),
    /// The endpoint is not `api`; carries it.
    UnsupportedEndpoint(String),
    /// The request type is none of the four known ones; carries it.
    UnsupportedReqType(String),
    /// An `info` or `download` request named no title ID.
    NoIdInfoQuery,
    /// The named title ID is not listed; carries it.
    GameNotFound(String),
    /// The download range does not parse or is reversed.
    BadRange,
    /// Opening or reading the archive failed; carries the error's text.
    FileRead(String),
}

impl TinfoilQueryErrorKind {
    /// The error's message, as the status response reports it.
    pub open spec fn spec_message(&self) -> Seq<char> {
        match self {
            TinfoilQueryErrorKind::UnsupportedCmd(s) => "unsupported cmd: "@ + s@,
            TinfoilQueryErrorKind::UnsupportedEndpoint(s) => "unsupported endpoint: "@ + s@,
            TinfoilQueryErrorKind::UnsupportedReqType(s) => "unsupported req type: "@ + s@,
            TinfoilQueryErrorKind::NoIdInfoQuery => "no title id in info query"@,
            TinfoilQueryErrorKind::GameNotFound(s) => "game not found: "@ + s@,
            TinfoilQueryErrorKind::BadRange => "bad download range"@,
            TinfoilQueryErrorKind::FileRead(s) => "failed to read file: "@ + s@,
        }
    }

    /// Render the error's message.
    pub fn message(&self) -> (r: String)
        ensures
            r@ == self.spec_message(),
    {
        match self {
            TinfoilQueryErrorKind::UnsupportedCmd(s) => {
                let mut m = "unsupported cmd: ".to_owned();
                m.append(s.as_str());
                m
            },
            TinfoilQueryErrorKind::UnsupportedEndpoint(s) => {
                let mut m = "unsupported endpoint: ".to_owned();
                m.append(s.as_str());
                m
            },
            TinfoilQueryErrorKind::UnsupportedReqType(s) => {
                let mut m = "unsupported req type: ".to_owned();
                m.append(s.as_str());
                m
            },
            TinfoilQueryErrorKind::NoIdInfoQuery => "no title id in info query".to_owned(),
            TinfoilQueryErrorKind::GameNotFound(s) => {
                let mut m = "game not found: ".to_owned();
                m.append(s.as_str());
                m
            },
            TinfoilQueryErrorKind::BadRange => "bad download range".to_owned(),
            TinfoilQueryErrorKind::FileRead(s) => {
                let mut m = "failed to read file: ".to_owned();
                m.append(s.as_str());
                m
            },
        }
    }
}

/// What can go wrong with one query: a recoverable query error, or a
/// fatal transport error.
#[derive(Debug)]
pub enum TinfoilQueryError {
    BadQuery(TinfoilQueryErrorKind),
    CommError(SwitchCommError),
}

/// Decode and validate a request header.  Fails with `BadMagic` when the
/// magic bytes are wrong, and with `UnknownCmd` when the command is not
/// 1, the only command Tinfoil sends; otherwise returns the payload size.
pub fn parse_request_header(buf: &[u8]) -> (r: Result<u64, SwitchCommError>)
    requires
        buf@.len() == 32,
    ensures
        r is Ok <==> buf@.subrange(0, 4) == spec_tinfoil_magic() && CommandPacket::spec_parse(
            buf@,
        ).cmd == 1,
        r matches Ok(size) ==> size == CommandPacket::spec_parse(buf@).size,
        r matches Err(e) ==> if buf@.subrange(0, 4) != spec_tinfoil_magic() {
            e is BadMagic
        } else {
            e is UnknownCmd
        },
{
    match CommandPacket::from_raw(buf) {
        None => Err(SwitchCommError::BadMagic),
        Some(p) => {
            if p.cmd != 1 {
                Err(SwitchCommError::UnknownCmd)
            } else {
                Ok(p.size)
            }
        },
    }
}

/// Decode a query payload as UTF-8; fails with `CorruptedCmd` exactly on
/// invalid bytes.
pub fn payload_to_string(p: &[u8]) -> (r: Result<String, SwitchCommError>)
    ensures
        r is Ok <==> valid_utf8(p@),
        r matches Ok(s) ==> s@ == decode_utf8(p@),
        r matches Err(e) ==> e is CorruptedCmd,
{
    match utf8_to_str(p) {
        Some(s) => {
            proof {
                vstd::utf8::encode_utf8_decode_utf8(s@);
            }
            Ok(s.to_owned())
        },
        None => Err(SwitchCommError::CorruptedCmd),
    }
}

/// A parsed query: `/{endpoint}/{req_type}` followed, optionally, by
/// `/{query}` where the query may itself contain slashes.
pub struct TinfoilQuery {
    pub endpoint: String,
    pub req_type: String,
    pub query: Option<String>,
}

/// How a payload splits into endpoint, request type and query: it must
/// open with a slash and name at least an endpoint and a request type.
pub open spec fn spec_parse_query(s: Seq<char>) -> Option<
    (Seq<char>, Seq<char>, Option<Seq<char>>),
> {
    if s.len() == 0 || s[0] != '/' {
        None
    } else {
        match spec_find_char(s, 1, '/') {
            None => None,
            Some(i2) => {
                let endpoint = s.subrange(1, i2);
                match spec_find_char(s, i2 + 1, '/') {
                    None => Some((endpoint, s.skip(i2 + 1), None)),
                    Some(i3) => Some((endpoint, s.subrange(i2 + 1, i3), Some(s.skip(i3 + 1)))),
                }
            },
        }
    }
}

/// A request type with its trailing question marks removed, a residue of
/// the protocol's HTTP heritage.
pub open spec fn spec_trim_query_marks(s: Seq<char>) -> Seq<char>
    decreases s.len(),
{
    if s.len() > 0 && s.last() == '?' {
        spec_trim_query_marks(s.drop_last())
    } else {
        s
    }
}

/// A query's first slash-delimited segment, and what follows it.
pub open spec fn spec_seg_split(s: Seq<char>) -> (Seq<char>, Option<Seq<char>>) {
    match spec_find_char(s, 0, '/') {
        Some(i) => (s.take(i), Some(s.skip(i + 1))),
        None => (s, None),
    }
}

/// The download range a query's tail denotes against an archive of
/// `size` bytes: a missing bound defaults to 0 and `size`; a bound that
/// is not a decimal `u64` makes the range invalid.
pub open spec fn spec_download_range(rest: Option<Seq<char>>, size: u64) -> Option<(u64, u64)> {
    match rest {
        None => Some((0u64, size)),
        Some(r1) => {
            let (s1, rest2) = spec_seg_split(r1);
            if !spec_is_u64_literal(s1) {
                None
            } else {
                let start = digits_val(spec_dec_digits(s1)) as u64;
                match rest2 {
                    None => Some((start, size)),
                    Some(r2) => {
                        let (s2, _) = spec_seg_split(r2);
                        if !spec_is_u64_literal(s2) {
                            None
                        } else {
                            Some((start, digits_val(spec_dec_digits(s2)) as u64))
                        }
                    },
                }
            }
        },
    }
}

impl TinfoilQuery {
    /// Split a payload into endpoint, request type and query.  Fails with
    /// `UnsupportedCmd` (carrying the payload) when the payload does not
    /// open with a slash or names no request type.
    pub fn from_payload(payload: &str) -> (r: Result<TinfoilQuery, TinfoilQueryError>)
        ensures
            match spec_parse_query(payload@) {
                Some((e, rt, q)) => r matches Ok(tq) && tq.endpoint@ == e && tq.req_type@ == rt
                    && (match q {
                    Some(qs) => tq.query matches Some(t) && t@ == qs,
                    None => tq.query is None,
                }),
                None => r matches Err(TinfoilQueryError::BadQuery(
                    TinfoilQueryErrorKind::UnsupportedCmd(p),
                )) && p@ == payload@,
            },
    {
        let n = payload.unicode_len();
        if n == 0 || payload.get_char(0) != '/' {
            return Err(
                TinfoilQueryError::BadQuery(
                    TinfoilQueryErrorKind::UnsupportedCmd(payload.to_owned()),
                ),
            );
        }
        let i2 = match find_char(payload, 1, '/') {
            Some(i) => i,
            None => {
                return Err(
                    TinfoilQueryError::BadQuery(
                        TinfoilQueryErrorKind::UnsupportedCmd(payload.to_owned()),
                    ),
                );
            },
        };
        let endpoint = payload.substring_char(1, i2).to_owned();
        match find_char(payload, i2 + 1, '/') {
            None => {
                let req_type = payload.substring_char(i2 + 1, n).to_owned();
                proof {
                    assert(req_type@ =~= payload@.skip(i2 + 1));
                }
                Ok(TinfoilQuery { endpoint, req_type, query: None })
            },
            Some(i3) => {
                let req_type = payload.substring_char(i2 + 1, i3).to_owned();
                let query = payload.substring_char(i3 + 1, n).to_owned();
                proof {
                    assert(query@ =~= payload@.skip(i3 + 1));
                }
                Ok(TinfoilQuery { endpoint, req_type, query: Some(query) })
            },
        }
    }
}

/// What answering one query requires of the caller: write bytes, fetch a
/// modification time and send the game's entry, or stream a file range.
pub enum TinfoilAction {
    /// Write these bytes; they are already framed.
    Respond(Vec<u8>),
    /// Fetch the file's modification time, then send the game's entry
    /// JSON, framed.
    SendEntry { path: String, id: String, size: u64 },
    /// Open the file, seek to `start`, and stream `len` bytes in chunked
    /// frames.
    SendFile { path: String, start: u64, len: u64 },
}

/// The framing header of a textual reply: command 1 and the payload's
/// byte length.
pub open spec fn spec_text_header(n: u64) -> CommandPacket {
    CommandPacket {
        magic: [0x12u8, 0x12u8, 0x12u8, 0x12u8],
        cmd: 1,
        size: n,
        thread_id: 0,
        packet_i: 0,
        packet_n: 0,
        timestamp: 0,
    }
}

/// A framed textual reply: a command header whose size is the byte
/// length of the payload, then the payload.
pub open spec fn spec_frame_text(p: Seq<u8>) -> Seq<u8> {
    spec_text_header(p.len() as u64).spec_bytes() + p
}

/// Frame a textual reply.
pub fn frame_text(payload: &[u8]) -> (r: Vec<u8>)
    ensures
        r@ == spec_frame_text(payload@),
        r@.len() == 32 + payload@.len(),
{
    let header = CommandPacket::new(1, payload.len() as u64);
    let mut out = header.to_bytes();
    let ghost pre = out@;
    let mut i: usize = 0;
    while i < payload.len()
        invariant
            i <= payload@.len(),
            out@ == pre + payload@.take(i as int),
        decreases payload@.len() - i,
    {
        out.push(payload[i]);
        proof {
            assert(pre + payload@.take(i as int) + seq![payload@[i as int]] =~= pre + payload@.take(
                i + 1,
            ));
        }
        i = i + 1;
    }
    proof {
        assert(payload@.take(i as int) =~= payload@);
        assert(out@ =~= spec_frame_text(payload@));
    }
    out
}

/// Every outbound textual reply opens with a command header that parses
/// back to command 1 and a size equal to the byte length of the payload
/// that follows it.
pub proof fn lemma_frame_text_header(p: Seq<u8>)
    requires
        p.len() <= u64::MAX,
    ensures
        spec_frame_text(p).len() == 32 + p.len(),
        spec_frame_text(p).subrange(0, 32) == spec_text_header(p.len() as u64).spec_bytes(),
        CommandPacket::spec_parse(spec_frame_text(p).subrange(0, 32)).cmd == 1,
        CommandPacket::spec_parse(spec_frame_text(p).subrange(0, 32)).size == p.len(),
        spec_frame_text(p).subrange(0, 32).subrange(0, 4) == spec_tinfoil_magic(),
        spec_frame_text(p).skip(32) == p,
{
    let h = spec_text_header(p.len() as u64);
    crate::packet::lemma_command_packet_round_trip(h);
    assert(spec_frame_text(p).subrange(0, 32) =~= h.spec_bytes());
    assert(spec_frame_text(p).skip(32) =~= p);
    assert(h.spec_bytes().subrange(0, 4) =~= h.magic@);
    assert(h.magic@ =~= spec_tinfoil_magic());
}

/// Finding a character in a tail of `s` is finding it in `s` from that
/// position on.
proof fn lemma_find_char_skip(s: Seq<char>, a: int, k: int, c: char)
    requires
        0 <= a <= s.len(),
        0 <= k,
    ensures
        spec_find_char(s.skip(a), k, c) == match spec_find_char(s, a + k, c) {
            Some(i) => Some(i - a),
            None => None::<int>,
        },
    decreases s.len() - a - k,
{
    if a + k >= s.len() {
        assert(s.skip(a).len() == s.len() - a);
    } else {
        assert(s.skip(a)[k] == s[a + k]);
        if s[a + k] != c {
            lemma_find_char_skip(s, a, k + 1, c);
        }
    }
}

/// Strip the trailing question marks off a request type.
fn trim_query_marks(s: &str) -> (r: &str)
    ensures
        r@ == spec_trim_query_marks(s@),
{
    let n = s.unicode_len();
    let mut end: usize = n;
    proof {
        assert(s@.take(n as int) =~= s@);
    }
    while end > 0
        invariant
            end <= n,
            n == s@.len(),
            spec_trim_query_marks(s@) == spec_trim_query_marks(s@.take(end as int)),
        ensures
            end <= n,
            n == s@.len(),
            spec_trim_query_marks(s@) == spec_trim_query_marks(s@.take(end as int)),
            end == 0 || s@[end - 1] != '?',
        decreases end,
    {
        if s.get_char(end - 1) != '?' {
            break;
        }
        proof {
            assert(s@.take(end as int).last() == s@[end - 1]);
            assert(s@.take(end as int).drop_last() =~= s@.take(end - 1));
        }
        end = end - 1;
    }
    proof {
        if end > 0 {
            assert(s@.take(end as int).last() == s@[end - 1]);
        }
        assert(spec_trim_query_marks(s@.take(end as int)) == s@.take(end as int));
    }
    let r = s.substring_char(0, end);
    proof {
        assert(r@ =~= s@.take(end as int));
    }
    r
}

/// The first slash-delimited segment of a query, and the position after
/// the slash when one follows it.
fn seg_split(s: &str) -> (r: (&str, Option<usize>))
    ensures
        r.0@ == spec_seg_split(s@).0,
        match spec_seg_split(s@).1 {
            Some(rest) => r.1 matches Some(p) && p <= s@.len() && rest == s@.skip(p as int),
            None => r.1 is None,
        },
{
    let n = s.unicode_len();
    match find_char(s, 0, '/') {
        Some(i) => {
            let seg = s.substring_char(0, i);
            proof {
                assert(seg@ =~= s@.take(i as int));
            }
            (seg, Some(i + 1))
        },
        None => (s, None),
    }
}

impl TinfoilQuery {

/// Answer one query against the listing.  The reply is fully decided
/// here: framed bytes for `queue`, `search` and every query error, the
/// game to describe for `info`, and the file range to stream for
/// `download`.
pub fn process_query(listing: &Listing, payload: &str) -> (r: Result<
    TinfoilAction,
    TinfoilQueryError,
>)
    requires
        listing.wf(),
    ensures
        match spec_parse_query(payload@) {
            None => r matches Err(TinfoilQueryError::BadQuery(
                TinfoilQueryErrorKind::UnsupportedCmd(p),
            )) && p@ == payload@,
            Some((ep, rt0, q)) => {
                if ep != "api"@ {
                    r matches Err(TinfoilQueryError::BadQuery(
                        TinfoilQueryErrorKind::UnsupportedEndpoint(s),
                    )) && s@ == ep
                } else {
                    let rt = spec_trim_query_marks(rt0);
                    if rt == "queue"@ {
                        r matches Ok(TinfoilAction::Respond(b)) && b@ == spec_frame_text(
                            encode_utf8("[]"@),
                        )
                    } else if rt == "search"@ {
                        r matches Ok(TinfoilAction::Respond(b)) && b@ == spec_frame_text(
                            spec_search_json(listing.id_to_game.val_seq()),
                        )
                    } else if rt == "info"@ {
                        match q {
                            None => r matches Err(TinfoilQueryError::BadQuery(e))
                                && e is NoIdInfoQuery,
                            Some(qs) => {
                                let tid = spec_seg_split(qs).0;
                                if !listing.id_map_spec().contains_key(tid) {
                                    r matches Err(TinfoilQueryError::BadQuery(
                                        TinfoilQueryErrorKind::GameNotFound(s),
                                    )) && s@ == tid
                                } else {
                                    let g = listing.id_map_spec()[tid];
                                    r matches Ok(TinfoilAction::SendEntry { path, id, size })
                                        && path@ == g.path@ && id@ == g.info.id@ && size
                                        == g.info.size
                                }
                            },
                        }
                    } else if rt == "download"@ {
                        match q {
                            None => r matches Err(TinfoilQueryError::BadQuery(e))
                                && e is NoIdInfoQuery,
                            Some(qs) => {
                                let (tid, rest) = spec_seg_split(qs);
                                if !listing.id_map_spec().contains_key(tid) {
                                    r matches Err(TinfoilQueryError::BadQuery(
                                        TinfoilQueryErrorKind::GameNotFound(s),
                                    )) && s@ == tid
                                } else {
                                    let g = listing.id_map_spec()[tid];
                                    match spec_download_range(rest, g.info.size) {
                                        None => r matches Err(TinfoilQueryError::BadQuery(e))
                                            && e is BadRange,
                                        Some((start, end)) => {
                                            if start > end {
                                                r matches Err(TinfoilQueryError::BadQuery(e))
                                                    && e is BadRange
                                            } else {
                                                r matches Ok(
                                                    TinfoilAction::SendFile { path, start: s, len },
                                                ) && path@ == g.path@ && s == start && len == end
                                                    - start
                                            }
                                        },
                                    }
                                }
                            },
                        }
                    } else {
                        r matches Err(TinfoilQueryError::BadQuery(
                            TinfoilQueryErrorKind::UnsupportedReqType(s),
                        )) && s@ == rt0
                    }
                }
            },
        },
{
    let tq = match TinfoilQuery::from_payload(payload) {
        Ok(t) => t,
        Err(e) => {
            return Err(e);
        },
    };
    if !str_eq(tq.endpoint.as_str(), "api") {
        return Err(
            TinfoilQueryError::BadQuery(TinfoilQueryErrorKind::UnsupportedEndpoint(tq.endpoint)),
        );
    }
    let rt = trim_query_marks(tq.req_type.as_str());
    if str_eq(rt, "queue") {
        Ok(TinfoilAction::Respond(frame_text("[]".as_bytes())))
    } else if str_eq(rt, "search") {
        let body = search_json(listing);
        Ok(TinfoilAction::Respond(frame_text(body.as_slice())))
    } else if str_eq(rt, "info") {
        let qs = match &tq.query {
            None => {
                return Err(TinfoilQueryError::BadQuery(TinfoilQueryErrorKind::NoIdInfoQuery));
            },
            Some(q) => q,
        };
        let (tid, _) = seg_split(qs.as_str());
        match listing.get_game(ListingIndex::TitleId(tid)) {
            None => Err(
                TinfoilQueryError::BadQuery(TinfoilQueryErrorKind::GameNotFound(tid.to_owned())),
            ),
            Some(g) => Ok(
                TinfoilAction::SendEntry {
                    path: g.path.clone(),
                    id: g.info.id.clone(),
                    size: g.info.size,
                },
            ),
        }
    } else if str_eq(rt, "download") {
        let qs = match &tq.query {
            None => {
                return Err(TinfoilQueryError::BadQuery(TinfoilQueryErrorKind::NoIdInfoQuery));
            },
            Some(q) => q,
        };
        let qstr = qs.as_str();
        let (tid, rest) = seg_split(qstr);
        let game = match listing.get_game(ListingIndex::TitleId(tid)) {
            None => {
                return Err(
                    TinfoilQueryError::BadQuery(
                        TinfoilQueryErrorKind::GameNotFound(tid.to_owned()),
                    ),
                );
            },
            Some(g) => g,
        };
        let size = game.info.size;
        let n = qstr.unicode_len();
        let ghost qv = qstr@;
        let (start, end): (u64, u64) = match rest {
            None => (0, size),
            Some(p1) => {
                let ghost rest1 = qv.skip(p1 as int);
                let (s1, p2): (&str, Option<usize>) = match find_char(qstr, p1, '/') {
                    Some(j) => {
                        let seg = qstr.substring_char(p1, j);
                        (seg, Some(j + 1))
                    },
                    None => (qstr.substring_char(p1, n), None),
                };
                proof {
                    lemma_find_char_skip(qv, p1 as int, 0, '/');
                    assert(s1@ =~= spec_seg_split(rest1).0);
                }
                let start = match parse_u64(s1) {
                    None => {
                        return Err(
                            TinfoilQueryError::BadQuery(TinfoilQueryErrorKind::BadRange),
                        );
                    },
                    Some(v) => v,
                };
                match p2 {
                    None => (start, size),
                    Some(p2v) => {
                        let ghost rest2 = qv.skip(p2v as int);
                        proof {
                            assert(rest2 =~= rest1.skip(p2v - p1));
                            assert(spec_seg_split(rest1).1 == Some(rest2));
                        }
                        let s2: &str = match find_char(qstr, p2v, '/') {
                            Some(j) => qstr.substring_char(p2v, j),
                            None => qstr.substring_char(p2v, n),
                        };
                        proof {
                            lemma_find_char_skip(qv, p2v as int, 0, '/');
                            assert(s2@ =~= spec_seg_split(rest2).0);
                        }
                        match parse_u64(s2) {
                            None => {
                                return Err(
                                    TinfoilQueryError::BadQuery(TinfoilQueryErrorKind::BadRange),
                                );
                            },
                            Some(v) => (start, v),
                        }
                    },
                }
            },
        };
        if start > end {
            Err(TinfoilQueryError::BadQuery(TinfoilQueryErrorKind::BadRange))
        } else {
            Ok(
                TinfoilAction::SendFile { path: game.path.clone(), start, len: end - start },
            )
        }
    } else {
        Err(TinfoilQueryError::BadQuery(TinfoilQueryErrorKind::UnsupportedReqType(tq.req_type)))
    }
}

}

/// One archive as the search reply lists it.
pub open spec fn spec_game_info_json(g: Game) -> Seq<u8> {
    encode_utf8("{\"id\":"@) + spec_json_string(encode_utf8(g.info.id@)) + encode_utf8(
        ",\"name\":"@,
    ) + spec_json_string(encode_utf8(g.info.name@)) + encode_utf8(",\"size\":"@) + spec_dec(
        g.info.size as nat,
    ) + encode_utf8(",\"version\":"@) + spec_json_string(encode_utf8(g.info.version@))
        + encode_utf8("}"@)
}

/// The comma-joined bodies of the search reply.
pub open spec fn spec_games_join(gs: Seq<Game>) -> Seq<u8>
    decreases gs.len(),
{
    if gs.len() == 0 {
        Seq::empty()
    } else if gs.len() == 1 {
        spec_game_info_json(gs[0])
    } else {
        spec_game_info_json(gs[0]) + seq![44u8] + spec_games_join(gs.drop_first())
    }
}

/// The search reply: a JSON array listing every game's metadata, in the
/// listing's insertion order.
pub open spec fn spec_search_json(gs: Seq<Game>) -> Seq<u8> {
    seq![91u8] + spec_games_join(gs) + seq![93u8]
}

/// Joining distributes over appending one game at the end.
proof fn lemma_games_join_push(gs: Seq<Game>, g: Game)
    ensures
        spec_games_join(gs.push(g)) == if gs.len() == 0 {
            spec_game_info_json(g)
        } else {
            spec_games_join(gs) + seq![44u8] + spec_game_info_json(g)
        },
    decreases gs.len(),
{
    let s2 = gs.push(g);
    if gs.len() == 0 {
        assert(s2.len() == 1);
        assert(s2[0] == g);
    } else {
        assert(s2[0] == gs[0]);
        assert(s2.drop_first() =~= gs.drop_first().push(g));
        lemma_games_join_push(gs.drop_first(), g);
        if gs.len() == 1 {
            assert(gs.drop_first().len() == 0);
            assert(spec_games_join(s2) == spec_game_info_json(gs[0]) + seq![44u8]
                + spec_game_info_json(g));
            assert(spec_games_join(gs) + seq![44u8] + spec_game_info_json(g) =~= spec_game_info_json(
                gs[0],
            ) + seq![44u8] + spec_game_info_json(g));
        } else {
            assert(spec_game_info_json(gs[0]) + seq![44u8] + (spec_games_join(gs.drop_first())
                + seq![44u8] + spec_game_info_json(g)) =~= (spec_game_info_json(gs[0]) + seq![44u8]
                + spec_games_join(gs.drop_first())) + seq![44u8] + spec_game_info_json(g));
        }
    }
}

/// Append one game's metadata object to `out`.
fn push_game_info_json(out: &mut Vec<u8>, g: &Game)
    ensures
        final(out)@ == old(out)@ + spec_game_info_json(*g),
{
    push_str_bytes(out, "{\"id\":");
    push_json_string(out, g.info.id.as_str());
    push_str_bytes(out, ",\"name\":");
    push_json_string(out, g.info.name.as_str());
    push_str_bytes(out, ",\"size\":");
    push_dec(out, g.info.size);
    push_str_bytes(out, ",\"version\":");
    push_json_string(out, g.info.version.as_str());
    push_str_bytes(out, "}");
    proof {
        assert(out@ =~= old(out)@ + spec_game_info_json(*g));
    }
}

/// Serialize the whole listing for a search reply, in insertion order.
pub fn search_json(listing: &Listing) -> (r: Vec<u8>)
    requires
        listing.wf(),
    ensures
        r@ == spec_search_json(listing.id_to_game.val_seq()),
{
    let ghost games = listing.id_to_game.val_seq();
    let mut out: Vec<u8> = Vec::new();
    out.push(91);
    let m = listing.id_map().len();
    proof {
        listing.id_to_game.lemma_view();
        assert(games.take(0) =~= Seq::<Game>::empty());
    }
    let mut i: usize = 0;
    while i < m
        invariant
            i <= m,
            m == games.len(),
            m == listing.id_to_game.key_seq().len(),
            games == listing.id_to_game.val_seq(),
            listing.wf(),
            out@ == seq![91u8] + spec_games_join(games.take(i as int)),
        decreases m - i,
    {
        if i > 0 {
            out.push(44);
        }
        let g = listing.id_map().val_at(i);
        push_game_info_json(&mut out, g);
        proof {
            lemma_games_join_push(games.take(i as int), games[i as int]);
            assert(games.take(i as int).push(games[i as int]) =~= games.take(i + 1));
            if i > 0 {
                assert(out@ =~= seq![91u8] + spec_games_join(games.take(i + 1)));
            } else {
                assert(out@ =~= seq![91u8] + spec_games_join(games.take(1)));
            }
        }
        i = i + 1;
    }
    out.push(93);
    proof {
        assert(games.take(m as int) =~= games);
        assert(out@ =~= spec_search_json(games));
    }
    out
}

/// The JSON status reply that reports a recoverable query error.
pub open spec fn spec_status_json(success: bool, msg: Seq<char>) -> Seq<u8> {
    encode_utf8("{\"success\":"@) + (if success {
        encode_utf8("true"@)
    } else {
        encode_utf8("false"@)
    }) + encode_utf8(",\"message\":"@) + spec_json_string(encode_utf8(msg)) + encode_utf8("}"@)
}

/// Serialize a status reply.
pub fn status_json(success: bool, message: &str) -> (r: Vec<u8>)
    ensures
        r@ == spec_status_json(success, message@),
{
    let mut out: Vec<u8> = Vec::new();
    push_str_bytes(&mut out, "{\"success\":");
    if success {
        push_str_bytes(&mut out, "true");
    } else {
        push_str_bytes(&mut out, "false");
    }
    push_str_bytes(&mut out, ",\"message\":");
    push_json_string(&mut out, message);
    push_str_bytes(&mut out, "}");
    proof {
        assert(out@ =~= spec_status_json(success, message@));
    }
    out
}

/// The framed status reply answering a query error.
pub fn error_response(kind: &TinfoilQueryErrorKind) -> (r: Vec<u8>)
    ensures
        r@ == spec_frame_text(spec_status_json(false, kind.spec_message())),
{
    let msg = kind.message();
    let body = status_json(false, msg.as_str());
    frame_text(body.as_slice())
}

/// The header that precedes each chunk of a file download: command 1,
/// size equal to the full chunk size.
pub open spec fn spec_download_header() -> Seq<u8> {
    spec_text_header(CHUNK_SIZE).spec_bytes()
}

/// A complete download stream for `d`: each frame is a download header
/// followed by one chunk; the final, short frame ends the stream.
pub open spec fn spec_download_frames(d: Seq<u8>) -> Seq<u8>
    decreases d.len(),
{
    if d.len() < CHUNK_SIZE as nat {
        spec_download_header() + d
    } else {
        spec_download_header() + d.take(CHUNK_SIZE as int) + spec_download_frames(
            d.skip(CHUNK_SIZE as int),
        )
    }
}

/// Stream a byte range as Tinfoil expects it: a header announcing a full
/// chunk before every frame, until the chunk writer reports the end.
pub fn download_frames(data: &Vec<u8>) -> (r: Vec<u8>)
    ensures
        r@ == spec_download_frames(data@),
{
    let mut out: Vec<u8> = Vec::new();
    let mut pos: usize = 0;
    let header = CommandPacket::new(1, CHUNK_SIZE);
    proof {
        assert(data@.skip(0) =~= data@);
        assert(out@ + spec_download_frames(data@) =~= spec_download_frames(data@));
    }
    loop
        invariant_except_break
            spec_download_frames(data@) == out@ + spec_download_frames(data@.skip(pos as int)),
        invariant
            pos <= data@.len(),
            header == spec_text_header(CHUNK_SIZE),
        ensures
            out@ == spec_download_frames(data@),
        decreases data@.len() - pos,
    {
        let ghost head_out = out@;
        let ghost prev = pos as int;
        let ghost rest = data@.skip(prev);
        let mut h = header.to_bytes();
        out.append(&mut h);
        let st = write_next_chunk(data, &mut pos, &mut out);
        proof {
            assert(data@.subrange(prev, pos as int) =~= rest.take(pos - prev));
            if rest.len() < CHUNK_SIZE as nat {
                assert(rest.take(pos - prev) =~= rest);
                assert(out@ =~= head_out + spec_download_frames(rest));
            } else {
                assert(rest.take(pos - prev) =~= rest.take(CHUNK_SIZE as int));
                assert(data@.skip(pos as int) =~= rest.skip(CHUNK_SIZE as int));
                assert(out@ + spec_download_frames(data@.skip(pos as int)) =~= head_out
                    + spec_download_frames(rest));
            }
        }
        if st == ChunkStatus::End {
            break;
        }
    }
    out
}

} // verus!
