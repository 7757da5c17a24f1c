//! The Tinfoil game entry: the JSON record an `info` request is answered
//! with.  Tinfoil knows many fields, but the host fills only the title
//! ID (also sent as the update ID), the size, and the modification time;
//! every other field is a fixed `null` or default and is emitted as part
//! of the record's skeleton.
//!
//! The encoder and the parser are exact inverses on the fields the
//! protocol round-trips; see [`lemma_entry_round_trip`].

use vstd::prelude::*;
use vstd::slice::slice_subrange;
use vstd::string::StringSliceAdditionalSpecFns;
use vstd::utf8::{valid_utf8, decode_utf8, encode_utf8};
use crate::json::{
    spec_dec,
    spec_dec_val,
    spec_is_digit,
    spec_is_plain,
    spec_json_string,
    lemma_dec_val_of_dec,
    lemma_esc_plain,
    push_dec,
    push_json_string,
    push_str_bytes,
};
use crate::strutil::{bytes_eq, utf8_to_str};

verus! {

/// One game as Tinfoil's `info` request sees it.  The modification time
/// is measured when the entry is built, not when the archive is scanned,
/// so deletion or modification surfaces immediately; it is carried in
/// whole seconds since the epoch.
#[derive(Debug)]
pub struct GameEntry {
    pub id: String,
    pub update_id: Option<String>,
    pub size: u64,
    pub mtime_secs: u64,
}

impl GameEntry {
    /// The plain entry the host serves: the title ID doubles as the
    /// update ID.
    pub fn plain_new(id: String, size: u64, mtime_secs: u64) -> (r: GameEntry)
        ensures
            r.id@ == id@,
            r.update_id matches Some(u) && u@ == id@,
            r.size == size,
            r.mtime_secs == mtime_secs,
    {
        let update_id = Some(id.clone());
        GameEntry { id, update_id, size, mtime_secs }
    }

    /// The entry's JSON encoding.  The skeleton between the live fields
    /// is fixed: every field the host cannot fill is `null` (or `false`,
    /// `0`, or the empty string, as Tinfoil defines its default).
    pub open spec fn spec_json(self) -> Seq<u8> {
        encode_utf8("{\"id\":"@) + spec_json_string(encode_utf8(self.id@)) + encode_utf8(
            ",\"rightsId\":null,\"name\":null,\"isDLC\":false,\"isUpdate\":false,\"idExt\":0,\"updateId\":"@,
        ) + (match self.update_id {
            Some(u) => spec_json_string(encode_utf8(u@)),
            None => encode_utf8("null"@),
        }) + encode_utf8(
            ",\"version\":null,\"key\":null,\"isDemo\":null,\"region\":null,\"regions\":null,\"baseId\":\"\",\"releaseDate\":null,\"nsuId\":null,\"category\":null,\"ratingContent\":null,\"numberOfPlayers\":null,\"rating\":null,\"developer\":null,\"publisher\":null,\"frontBoxArt\":null,\"iconUrl\":null,\"screenshots\":null,\"bannerUrl\":null,\"intro\":null,\"description\":null,\"size\":"@,
        ) + spec_dec(self.size as nat) + encode_utf8(",\"rank\":null,\"mtime\":"@) + spec_dec(
            self.mtime_secs as nat,
        ) + encode_utf8("}"@)
    }

    /// Encode the entry.
    pub fn to_json(&self) -> (r: Vec<u8>)
        ensures
            r@ == self.spec_json(),
    {
        let mut out: Vec<u8> = Vec::new();
        push_str_bytes(&mut out, "{\"id\":");
        push_json_string(&mut out, self.id.as_str());
        push_str_bytes(
            &mut out,
            ",\"rightsId\":null,\"name\":null,\"isDLC\":false,\"isUpdate\":false,\"idExt\":0,\"updateId\":",
        );
        match &self.update_id {
            Some(u) => push_json_string(&mut out, u.as_str()),
            None => push_str_bytes(&mut out, "null"),
        }
        push_str_bytes(
            &mut out,
            ",\"version\":null,\"key\":null,\"isDemo\":null,\"region\":null,\"regions\":null,\"baseId\":\"\",\"releaseDate\":null,\"nsuId\":null,\"category\":null,\"ratingContent\":null,\"numberOfPlayers\":null,\"rating\":null,\"developer\":null,\"publisher\":null,\"frontBoxArt\":null,\"iconUrl\":null,\"screenshots\":null,\"bannerUrl\":null,\"intro\":null,\"description\":null,\"size\":",
        );
        push_dec(&mut out, self.size);
        push_str_bytes(&mut out, ",\"rank\":null,\"mtime\":");
        push_dec(&mut out, self.mtime_secs);
        push_str_bytes(&mut out, "}");
        proof {
            assert(out@ =~= self.spec_json());
        }
        out
    }
}

/// Match a literal at a position: the position after it, or nothing.
pub open spec fn spec_expect(b: Seq<u8>, pos: int, lit: Seq<u8>) -> Option<int> {
    if 0 <= pos && pos + lit.len() <= b.len() && b.subrange(pos, pos + lit.len()) == lit {
        Some(pos + lit.len())
    } else {
        None
    }
}

/// Scan a JSON string value starting at its opening quote: the raw bytes
/// up to the closing quote (a backslash carries the byte after it
/// verbatim), and the position after the closing quote.
pub open spec fn spec_scan_string(b: Seq<u8>, pos: int) -> Option<(Seq<u8>, int)>
    decreases b.len() - pos,
{
    if pos < 0 || pos >= b.len() || b[pos] != 34 {
        None
    } else {
        spec_scan_string_body(b, pos + 1)
    }
}

/// Scan the body of a JSON string value from `pos` to its closing quote.
pub open spec fn spec_scan_string_body(b: Seq<u8>, pos: int) -> Option<(Seq<u8>, int)>
    decreases b.len() - pos,
{
    if pos < 0 || pos >= b.len() {
        None
    } else if b[pos] == 34 {
        Some((Seq::empty(), pos + 1))
    } else if b[pos] == 92 {
        if pos + 1 < b.len() {
            match spec_scan_string_body(b, pos + 2) {
                Some((s, e)) => Some((seq![b[pos], b[pos + 1]] + s, e)),
                None => None,
            }
        } else {
            None
        }
    } else {
        match spec_scan_string_body(b, pos + 1) {
            Some((s, e)) => Some((seq![b[pos]] + s, e)),
            None => None,
        }
    }
}

/// Where the run of ASCII digits starting at `pos` ends.
pub open spec fn spec_digits_end(b: Seq<u8>, pos: int) -> int
    decreases b.len() - pos,
{
    if 0 <= pos < b.len() && spec_is_digit(b[pos]) {
        spec_digits_end(b, pos + 1)
    } else {
        pos
    }
}

/// Scan a decimal number at `pos`: its value and the position after it,
/// or nothing when no digit starts there or the value overflows 64 bits.
pub open spec fn spec_scan_u64(b: Seq<u8>, pos: int) -> Option<(u64, int)> {
    let end = spec_digits_end(b, pos);
    if end == pos || spec_dec_val(b.subrange(pos, end)) > u64::MAX {
        None
    } else {
        Some((spec_dec_val(b.subrange(pos, end)) as u64, end))
    }
}

/// Parse the JSON encoding of a plain game entry: the raw bytes of the
/// `id` and `updateId` string values, the size, and the modification
/// time.  Any deviation from the skeleton a plain entry is emitted with
/// parses to nothing.
pub open spec fn spec_parse_entry(b: Seq<u8>) -> Option<(Seq<u8>, Seq<u8>, u64, u64)> {
    match spec_expect(b, 0, encode_utf8("{\"id\":"@)) {
        None => None,
        Some(p1) => match spec_scan_string(b, p1) {
            None => None,
            Some((idb, p2)) => match spec_expect(
                b,
                p2,
                encode_utf8(
                    ",\"rightsId\":null,\"name\":null,\"isDLC\":false,\"isUpdate\":false,\"idExt\":0,\"updateId\":"@,
                ),
            ) {
                None => None,
                Some(p3) => match spec_scan_string(b, p3) {
                    None => None,
                    Some((uidb, p4)) => match spec_expect(
                        b,
                        p4,
                        encode_utf8(
                            ",\"version\":null,\"key\":null,\"isDemo\":null,\"region\":null,\"regions\":null,\"baseId\":\"\",\"releaseDate\":null,\"nsuId\":null,\"category\":null,\"ratingContent\":null,\"numberOfPlayers\":null,\"rating\":null,\"developer\":null,\"publisher\":null,\"frontBoxArt\":null,\"iconUrl\":null,\"screenshots\":null,\"bannerUrl\":null,\"intro\":null,\"description\":null,\"size\":"@,
                        ),
                    ) {
                        None => None,
                        Some(p5) => match spec_scan_u64(b, p5) {
                            None => None,
                            Some((size, p6)) => match spec_expect(
                                b,
                                p6,
                                encode_utf8(",\"rank\":null,\"mtime\":"@),
                            ) {
                                None => None,
                                Some(p7) => match spec_scan_u64(b, p7) {
                                    None => None,
                                    Some((secs, p8)) => match spec_expect(
                                        b,
                                        p8,
                                        encode_utf8("}"@),
                                    ) {
                                        None => None,
                                        Some(p9) => if p9 == b.len() {
                                            Some((idb, uidb, size, secs))
                                        } else {
                                            None
                                        },
                                    },
                                },
                            },
                        },
                    },
                },
            },
        },
    }
}

/// Match a literal at a position of the buffer.
fn expect_lit(b: &[u8], pos: usize, lit: &str) -> (r: Option<usize>)
    ensures
        match spec_expect(b@, pos as int, lit.spec_bytes()) {
            Some(p) => r matches Some(q) && q == p,
            None => r is None,
        },
{
    let lb = lit.as_bytes();
    if pos > b.len() || b.len() - pos < lb.len() {
        return None;
    }
    if bytes_eq(slice_subrange(b, pos, pos + lb.len()), lb) {
        Some(pos + lb.len())
    } else {
        None
    }
}

/// Scan a JSON string value at `pos` (opening quote included); the raw
/// bytes before the closing quote and the position after it.
fn scan_string(b: &[u8], pos: usize) -> (r: Option<(Vec<u8>, usize)>)
    ensures
        match spec_scan_string(b@, pos as int) {
            Some((s, e)) => r matches Some((v, p)) && v@ == s && p == e,
            None => r is None,
        },
{
    if pos >= b.len() || b[pos] != 34 {
        return None;
    }
    let mut acc: Vec<u8> = Vec::new();
    let mut i: usize = pos + 1;
    loop
        invariant
            pos + 1 <= i <= b@.len(),
            spec_scan_string(b@, pos as int) == match spec_scan_string_body(b@, i as int) {
                Some((s, e)) => Some((acc@ + s, e)),
                None => None::<(Seq<u8>, int)>,
            },
        ensures
            match spec_scan_string(b@, pos as int) {
                Some((s, e)) => acc@ == s && i < b@.len() && b@[i as int] == 34 && e == i + 1,
                None => i >= b@.len() || (b@[i as int] == 92 && i + 1 >= b@.len()),
            },
        decreases b@.len() - i,
    {
        if i >= b.len() {
            break;
        }
        let c = b[i];
        if c == 34 {
            proof {
                assert(acc@ + Seq::<u8>::empty() =~= acc@);
            }
            break;
        } else if c == 92 {
            if i + 1 >= b.len() {
                break;
            }
            let ghost pre = acc@;
            acc.push(c);
            acc.push(b[i + 1]);
            proof {
                if spec_scan_string_body(b@, i + 2) is Some {
                    let (s, e) = spec_scan_string_body(b@, i + 2)->0;
                    assert(pre + (seq![b@[i as int], b@[i as int + 1]] + s) =~= acc@ + s);
                }
            }
            i = i + 2;
        } else {
            let ghost pre = acc@;
            acc.push(c);
            proof {
                if spec_scan_string_body(b@, i + 1) is Some {
                    let (s, e) = spec_scan_string_body(b@, i + 1)->0;
                    assert(pre + (seq![b@[i as int]] + s) =~= acc@ + s);
                }
            }
            i = i + 1;
        }
    }
    if i < b.len() && b[i] == 34 {
        Some((acc, i + 1))
    } else {
        None
    }
}

/// Scan a decimal number at `pos`.
fn scan_u64(b: &[u8], pos: usize) -> (r: Option<(u64, usize)>)
    ensures
        match spec_scan_u64(b@, pos as int) {
            Some((v, e)) => r matches Some((rv, rp)) && rv == v && rp == e,
            None => r is None,
        },
{
    if pos >= b.len() {
        return None;
    }
    let mut i = pos;
    let mut acc: u64 = 0;
    let mut overflow = false;
    proof {
        assert(b@.subrange(pos as int, pos as int) =~= Seq::<u8>::empty());
    }
    while i < b.len() && 48 <= b[i] && b[i] <= 57
        invariant
            pos <= i <= b@.len(),
            spec_digits_end(b@, pos as int) == spec_digits_end(b@, i as int),
            !overflow ==> acc == spec_dec_val(b@.subrange(pos as int, i as int)),
            overflow ==> spec_dec_val(b@.subrange(pos as int, i as int)) > u64::MAX,
            i > pos || !overflow,
        decreases b@.len() - i,
    {
        let d = b[i] - 48;
        proof {
            lemma_dec_val_snoc(b@, pos as int, i as int);
        }
        if overflow || acc > 1844674407370955161u64 || (acc == 1844674407370955161u64 && d > 5) {
            proof {
                if !overflow {
                    assert(spec_dec_val(b@.subrange(pos as int, i + 1)) > u64::MAX);
                } else {
                    let v = spec_dec_val(b@.subrange(pos as int, i as int));
                    assert(spec_dec_val(b@.subrange(pos as int, i + 1)) >= v);
                }
            }
            overflow = true;
        } else {
            acc = acc * 10 + (d as u64);
        }
        i = i + 1;
    }
    proof {
        assert(spec_digits_end(b@, i as int) == i as int);
    }
    if i == pos || overflow {
        None
    } else {
        Some((acc, i))
    }
}

/// Appending one digit multiplies the run's value by ten and adds it.
proof fn lemma_dec_val_snoc(b: Seq<u8>, pos: int, i: int)
    requires
        0 <= pos <= i < b.len(),
    ensures
        spec_dec_val(b.subrange(pos, i + 1)) == spec_dec_val(b.subrange(pos, i)) * 10 + (b[i]
            - 48) as nat,
{
    assert(b.subrange(pos, i + 1).drop_last() =~= b.subrange(pos, i));
    assert(b.subrange(pos, i + 1).last() == b[i]);
}

/// A digit run's value only grows as the run extends.
proof fn lemma_dec_val_prefix(b: Seq<u8>, pos: int, i: int, end: int)
    requires
        0 <= pos <= i <= end <= b.len(),
    ensures
        spec_dec_val(b.subrange(pos, i)) <= spec_dec_val(b.subrange(pos, end)),
    decreases end - i,
{
    if i < end {
        lemma_dec_val_snoc(b, pos, i);
        lemma_dec_val_prefix(b, pos, i + 1, end);
    }
}

/// Scanning a string body that holds plain bytes up to a closing quote
/// collects exactly those bytes.
proof fn lemma_scan_plain_body(b: Seq<u8>, pos: int, s: Seq<u8>)
    requires
        0 <= pos,
        pos + s.len() + 1 <= b.len(),
        forall|i: int| 0 <= i < s.len() ==> b[pos + i] == s[i],
        spec_is_plain(s),
        b[pos + s.len()] == 34,
    ensures
        spec_scan_string_body(b, pos) == Some((s, pos + s.len() + 1)),
    decreases s.len(),
{
    if s.len() == 0 {
        assert(b[pos] == 34);
    } else {
        assert(b[pos] == s[0]);
        assert(spec_is_plain_first(s));
        assert(spec_is_plain(s.drop_first())) by {
            assert(forall|i: int|
                0 <= i < s.drop_first().len() ==> #[trigger] s.drop_first()[i] == s[i + 1]);
        }
        assert(forall|i: int|
            0 <= i < s.drop_first().len() ==> b[pos + 1 + i] == #[trigger] s.drop_first()[i]);
        lemma_scan_plain_body(b, pos + 1, s.drop_first());
        assert(seq![s[0]] + s.drop_first() =~= s);
    }
}

/// The first byte of a plain string is plain.
spec fn spec_is_plain_first(s: Seq<u8>) -> bool {
    s.len() > 0 ==> (s[0] >= 32 && s[0] != 34 && s[0] != 92)
}

/// Scanning a quoted plain string value yields its bytes and the
/// position after its closing quote.
proof fn lemma_scan_plain(b: Seq<u8>, pos: int, s: Seq<u8>)
    requires
        0 <= pos,
        pos + s.len() + 2 <= b.len(),
        b[pos] == 34,
        b.subrange(pos + 1, pos + 1 + s.len()) == s,
        spec_is_plain(s),
        b[pos + 1 + s.len()] == 34,
    ensures
        spec_scan_string(b, pos) == Some((s, pos + s.len() + 2)),
{
    assert(forall|i: int|
        0 <= i < s.len() ==> b[pos + 1 + i] == #[trigger] s[i]) by {
        assert(forall|i: int|
            0 <= i < s.len() ==> #[trigger] s[i] == b.subrange(pos + 1, pos + 1 + s.len())[i]);
    }
    lemma_scan_plain_body(b, pos + 1, s);
}

/// A run of digits bounded by a non-digit ends exactly at the bound.
proof fn lemma_digits_end_run(b: Seq<u8>, pos: int, k: int)
    requires
        0 <= pos <= k <= b.len(),
        forall|i: int| pos <= i < k ==> spec_is_digit(#[trigger] b[i]),
        k == b.len() || !spec_is_digit(b[k]),
    ensures
        spec_digits_end(b, pos) == k,
    decreases k - pos,
{
    if pos < k {
        lemma_digits_end_run(b, pos + 1, k);
    }
}

/// Scanning a number whose digits sit at `pos`, bounded by a non-digit,
/// yields the digits' value.
proof fn lemma_scan_digits(b: Seq<u8>, pos: int, d: Seq<u8>)
    requires
        0 <= pos,
        pos + d.len() <= b.len(),
        b.subrange(pos, pos + d.len()) == d,
        d.len() > 0,
        forall|i: int| 0 <= i < d.len() ==> spec_is_digit(#[trigger] d[i]),
        spec_dec_val(d) <= u64::MAX,
        pos + d.len() == b.len() || !spec_is_digit(b[pos + d.len()]),
    ensures
        spec_scan_u64(b, pos) == Some((spec_dec_val(d) as u64, pos + d.len())),
{
    assert(forall|i: int| pos <= i < pos + d.len() ==> spec_is_digit(#[trigger] b[i])) by {
        assert(forall|i: int|
            pos <= i < pos + d.len() ==> #[trigger] b[i] == b.subrange(pos, pos + d.len())[i
                - pos]);
    }
    lemma_digits_end_run(b, pos, pos + d.len());
}

/// Encoding an entry and parsing the result gives the entry's fields
/// back, for every entry whose update identifier is set (the host always
/// sets it) and whose identifiers escaping leaves untouched.  An
/// identifier holding a quote, a backslash or a control byte is rewritten
/// by escaping and is not covered.
#[verifier::rlimit(100)]
#[verifier::spinoff_prover]
pub proof fn lemma_entry_round_trip(e: GameEntry)
    requires
        e.update_id is Some,
        spec_is_plain(encode_utf8(e.id@)),
        spec_is_plain(encode_utf8(e.update_id->0@)),
    ensures
        spec_parse_entry(e.spec_json()) == Some(
            (encode_utf8(e.id@), encode_utf8(e.update_id->0@), e.size, e.mtime_secs),
        ),
{
    let b = e.spec_json();
    let idb = encode_utf8(e.id@);
    let uidb = encode_utf8(e.update_id->0@);
    lemma_esc_plain(idb);
    lemma_esc_plain(uidb);
    lemma_dec_val_of_dec(e.size as nat);
    lemma_dec_val_of_dec(e.mtime_secs as nat);
    let a1 = encode_utf8("{\"id\":"@);
    let a2 = encode_utf8(
        ",\"rightsId\":null,\"name\":null,\"isDLC\":false,\"isUpdate\":false,\"idExt\":0,\"updateId\":"@,
    );
    let a3 = encode_utf8(
        ",\"version\":null,\"key\":null,\"isDemo\":null,\"region\":null,\"regions\":null,\"baseId\":\"\",\"releaseDate\":null,\"nsuId\":null,\"category\":null,\"ratingContent\":null,\"numberOfPlayers\":null,\"rating\":null,\"developer\":null,\"publisher\":null,\"frontBoxArt\":null,\"iconUrl\":null,\"screenshots\":null,\"bannerUrl\":null,\"intro\":null,\"description\":null,\"size\":"@,
    );
    let a4 = encode_utf8(",\"rank\":null,\"mtime\":"@);
    let a5 = encode_utf8("}"@);
    let ds = spec_dec(e.size as nat);
    let dm = spec_dec(e.mtime_secs as nat);
    let q = seq![34u8];
    assert(b =~= a1 + q + idb + q + a2 + q + uidb + q + a3 + ds + a4 + dm + a5);
    // The comma that opens each skeleton run and the closing brace are
    // not digits, so the number scans stop exactly at the runs' ends.
    assert(a4.len() >= 1 && a4[0] == 44 && a5 =~= seq![125u8]) by {
        reveal_strlit(",\"rank\":null,\"mtime\":");
        reveal_strlit("}");
        assert(",\"rank\":null,\"mtime\":"@[0] == ',');
        assert("}"@[0] == '}');
        assert("}"@.len() == 1);
        assert((',' as u32) == 44 && ('}' as u32) == 125);
        assert(44u32 & 0x7F == 44 && 125u32 & 0x7F == 125) by (bit_vector);
        assert(vstd::utf8::encode_scalar(44u32) == seq![44u8]);
        assert(vstd::utf8::encode_scalar(125u32) == seq![125u8]);
        assert(a4 == vstd::utf8::encode_scalar(44u32) + encode_utf8(
            ",\"rank\":null,\"mtime\":"@.drop_first(),
        ));
        assert("}"@.drop_first() =~= Seq::<char>::empty());
        assert(encode_utf8("}"@.drop_first()) == Seq::<u8>::empty());
        assert(a5 == vstd::utf8::encode_scalar(125u32) + encode_utf8("}"@.drop_first()));
        assert(a5 =~= seq![125u8]);
    }
    let p0 = a1.len() as int;
    let p1 = p0 + idb.len() + 2;
    let p2 = p1 + a2.len();
    let p3 = p2 + uidb.len() + 2;
    let p4 = p3 + a3.len();
    let p5 = p4 + ds.len();
    let p6 = p5 + a4.len();
    let p7 = p6 + dm.len();
    assert(b.len() == p7 + 1);
    assert(b.subrange(0, p0) =~= a1);
    assert(spec_expect(b, 0, a1) == Some(p0));
    assert(b[p0] == 34 && b[p0 + 1 + idb.len()] == 34);
    assert(b.subrange(p0 + 1, p0 + 1 + idb.len()) =~= idb);
    lemma_scan_plain(b, p0, idb);
    assert(b.subrange(p1, p2) =~= a2);
    assert(spec_expect(b, p1, a2) == Some(p2));
    assert(b[p2] == 34 && b[p2 + 1 + uidb.len()] == 34);
    assert(b.subrange(p2 + 1, p2 + 1 + uidb.len()) =~= uidb);
    lemma_scan_plain(b, p2, uidb);
    assert(b.subrange(p3, p4) =~= a3);
    assert(spec_expect(b, p3, a3) == Some(p4));
    assert(b.subrange(p4, p4 + ds.len()) =~= ds);
    assert(b.subrange(p5, p6) =~= a4);
    assert(b[p5] == b.subrange(p5, p6)[0]);
    assert(!spec_is_digit(b[p4 + ds.len()]));
    lemma_scan_digits(b, p4, ds);
    assert(spec_expect(b, p5, a4) == Some(p6));
    assert(b.subrange(p6, p6 + dm.len()) =~= dm);
    assert(b.subrange(p7, p7 + 1) =~= a5);
    assert(b[p7] == b.subrange(p7, p7 + 1)[0]);
    assert(!spec_is_digit(b[p6 + dm.len()]));
    lemma_scan_digits(b, p6, dm);
    assert(spec_expect(b, p7, a5) == Some(p7 + 1));
}

/// Parse an entry's JSON encoding back into an entry.  Only the shape
/// the host emits is read: the skeleton must match byte for byte, and
/// the two string values are taken raw, so an identifier that escaping
/// would rewrite does not survive the trip.
pub fn from_json(b: &[u8]) -> (r: Option<GameEntry>)
    ensures
        match spec_parse_entry(b@) {
            Some((idb, uidb, size, secs)) => {
                if valid_utf8(idb) && valid_utf8(uidb) {
                    r matches Some(g) && g.id@ == decode_utf8(idb) && (g.update_id matches Some(u)
                        && u@ == decode_utf8(uidb)) && g.size == size && g.mtime_secs == secs
                } else {
                    r is None
                }
            },
            None => r is None,
        },
{
    let p1 = match expect_lit(b, 0, "{\"id\":") {
        Some(p) => p,
        None => {
            return None;
        },
    };
    let (idb, p2) = match scan_string(b, p1) {
        Some(x) => x,
        None => {
            return None;
        },
    };
    let p3 = match expect_lit(
        b,
        p2,
        ",\"rightsId\":null,\"name\":null,\"isDLC\":false,\"isUpdate\":false,\"idExt\":0,\"updateId\":",
    ) {
        Some(p) => p,
        None => {
            return None;
        },
    };
    let (uidb, p4) = match scan_string(b, p3) {
        Some(x) => x,
        None => {
            return None;
        },
    };
    let p5 = match expect_lit(
        b,
        p4,
        ",\"version\":null,\"key\":null,\"isDemo\":null,\"region\":null,\"regions\":null,\"baseId\":\"\",\"releaseDate\":null,\"nsuId\":null,\"category\":null,\"ratingContent\":null,\"numberOfPlayers\":null,\"rating\":null,\"developer\":null,\"publisher\":null,\"frontBoxArt\":null,\"iconUrl\":null,\"screenshots\":null,\"bannerUrl\":null,\"intro\":null,\"description\":null,\"size\":",
    ) {
        Some(p) => p,
        None => {
            return None;
        },
    };
    let (size, p6) = match scan_u64(b, p5) {
        Some(x) => x,
        None => {
            return None;
        },
    };
    let p7 = match expect_lit(b, p6, ",\"rank\":null,\"mtime\":") {
        Some(p) => p,
        None => {
            return None;
        },
    };
    let (secs, p8) = match scan_u64(b, p7) {
        Some(x) => x,
        None => {
            return None;
        },
    };
    let p9 = match expect_lit(b, p8, "}") {
        Some(p) => p,
        None => {
            return None;
        },
    };
    if p9 != b.len() {
        return None;
    }
    let id = match utf8_to_str(idb.as_slice()) {
        Some(s) => {
            proof {
                vstd::utf8::encode_utf8_decode_utf8(s@);
            }
            s.to_owned()
        },
        None => {
            return None;
        },
    };
    let update_id = match utf8_to_str(uidb.as_slice()) {
        Some(s) => {
            proof {
                vstd::utf8::encode_utf8_decode_utf8(s@);
            }
            Some(s.to_owned())
        },
        None => {
            return None;
        },
    };
    Some(GameEntry { id, update_id, size, mtime_secs: secs })
}

} // verus!
