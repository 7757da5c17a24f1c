//! Game metadata: the identifier/version extractor that reads bracketed
//! tokens out of an archive's file name (falling back to the PFS0 parser),
//! and the `GameInfo`/`Game` records the listing stores.

use vstd::prelude::*;
use vstd::string::StrSliceExecFns;
use crate::nsp::{Nsp, NspParsingError};

verus! {

/// Errors while building a game record from an archive.
#[derive(Debug)]
pub enum GameError {
    /// Reading the archive or its metadata failed; carries the error's
    /// text.
    IoError(String),
    /// The archive's container could not be parsed.
    NspError(NspParsingError),
    /// The file name is not valid UTF-8.
    MalformedName,
    /// The file name holds no usable bracketed title ID; carries the
    /// file's path.
    BadNameFormat(String),
}

/// A title ID and version extracted from a file name or container.
#[derive(Debug)]
pub struct Extractor {
    pub title_id: String,
    pub version: String,
}

/// The bracketed tokens of a file name, in order: each token is the text
/// between a `[` and the next `]`, with a later `[` restarting the token.
/// `i` is the scan position, `start` the position after the latest
/// unmatched `[`, and `acc` the tokens already collected.
pub open spec fn spec_scan_tokens(
    s: Seq<char>,
    i: int,
    start: Option<int>,
    acc: Seq<Seq<char>>,
) -> Seq<Seq<char>>
    decreases s.len() - i,
{
    if i < 0 || i >= s.len() {
        acc
    } else if s[i] == '[' {
        spec_scan_tokens(s, i + 1, Some(i + 1), acc)
    } else if s[i] == ']' && start is Some {
        spec_scan_tokens(s, i + 1, None, acc.push(s.subrange(start->0, i)))
    } else {
        spec_scan_tokens(s, i + 1, start, acc)
    }
}

/// All bracketed tokens of a file name.
pub open spec fn spec_bracket_tokens(s: Seq<char>) -> Seq<Seq<char>> {
    spec_scan_tokens(s, 0, None, Seq::empty())
}

/// Whether a token names a version: it starts with `v`.
pub open spec fn spec_is_version_token(t: Seq<char>) -> bool {
    t.len() > 0 && t[0] == 'v'
}

/// Whether a token can be a title ID: it does not name a version and is
/// 6 to 16 characters long.
pub open spec fn spec_is_title_token(t: Seq<char>) -> bool {
    !spec_is_version_token(t) && 6 <= t.len() <= 16
}

/// The index of the first token naming a version.
pub open spec fn spec_first_version(tokens: Seq<Seq<char>>) -> Option<int>
    decreases tokens.len(),
{
    if tokens.len() == 0 {
        None
    } else if spec_is_version_token(tokens[0]) {
        Some(0int)
    } else {
        match spec_first_version(tokens.drop_first()) {
            Some(i) => Some(i + 1),
            None => None,
        }
    }
}

/// The index of the first token that can be a title ID.
pub open spec fn spec_first_title(tokens: Seq<Seq<char>>) -> Option<int>
    decreases tokens.len(),
{
    if tokens.len() == 0 {
        None
    } else if spec_is_title_token(tokens[0]) {
        Some(0int)
    } else {
        match spec_first_title(tokens.drop_first()) {
            Some(i) => Some(i + 1),
            None => None,
        }
    }
}

/// The version a file name denotes: the first version token with its `v`
/// stripped, or `0` when the name carries none.
pub open spec fn spec_version_of(tokens: Seq<Seq<char>>) -> Seq<char> {
    match spec_first_version(tokens) {
        Some(i) => tokens[i].drop_first(),
        None => seq!['0'],
    }
}

impl Extractor {
    /// Extract a title ID and version from a file name by scanning its
    /// bracketed tokens.  The version is the first token starting with
    /// `v` (stripped of it), defaulting to `0`; the title ID is the first
    /// remaining token of 6 to 16 characters.  Fails with
    /// `BadNameFormat` (carrying `path`) when no token qualifies.
    pub fn from_name(name: &str, path: &str) -> (r: Result<Extractor, GameError>)
        ensures
            match spec_first_title(spec_bracket_tokens(name@)) {
                Some(ti) => r matches Ok(ex) && ex.title_id@ == spec_bracket_tokens(name@)[ti]
                    && ex.version@ == spec_version_of(spec_bracket_tokens(name@)),
                None => r matches Err(e) && e matches GameError::BadNameFormat(p) && p@ == path@,
            },
    {
        let n = name.unicode_len();
        let mut tokens: Vec<String> = Vec::new();
        let mut start: Option<usize> = None;
        let mut i: usize = 0;
        proof {
            assert(tokens@.map_values(|t: String| t@) =~= Seq::<Seq<char>>::empty());
        }
        while i < n
            invariant
                i <= n,
                n == name@.len(),
                match start {
                    Some(s) => s <= i,
                    None => true,
                },
                spec_bracket_tokens(name@) == spec_scan_tokens(
                    name@,
                    i as int,
                    match start {
                        Some(s) => Some(s as int),
                        None => None::<int>,
                    },
                    tokens@.map_values(|t: String| t@),
                ),
            decreases n - i,
        {
            let c = name.get_char(i);
            if c == '[' {
                start = Some(i + 1);
            } else if c == ']' {
                if let Some(s) = start {
                    let tok = name.substring_char(s, i).to_owned();
                    proof {
                        assert(tok@ == name@.subrange(s as int, i as int));
                        assert((tokens@.push(tok)).map_values(|t: String| t@) =~= tokens@.map_values(
                            |t: String| t@,
                        ).push(tok@));
                    }
                    tokens.push(tok);
                    start = None;
                }
            }
            i = i + 1;
        }
        let ghost toks = spec_bracket_tokens(name@);
        proof {
            assert(toks == tokens@.map_values(|t: String| t@));
        }
        // The version: first token starting with `v`, stripped of it.
        let mut vidx: Option<usize> = None;
        let mut k: usize = 0;
        proof {
            assert(toks.skip(0) =~= toks);
        }
        while k < tokens.len()
            invariant_except_break
                vidx is None,
            invariant
                k <= tokens@.len(),
                toks == spec_bracket_tokens(name@),
                toks == tokens@.map_values(|t: String| t@),
                spec_first_version(toks) == match spec_first_version(toks.skip(k as int)) {
                    Some(j) => Some(j + k),
                    None => None::<int>,
                },
            ensures
                toks == tokens@.map_values(|t: String| t@),
                match vidx {
                    Some(ki) => ki < tokens@.len() && spec_first_version(toks) == Some(ki as int)
                        && spec_is_version_token(toks[ki as int]),
                    None => spec_first_version(toks) is None,
                },
            decreases tokens@.len() - k,
        {
            proof {
                assert(toks.skip(k as int)[0] == toks[k as int]);
                assert(toks.skip(k as int).drop_first() =~= toks.skip(k + 1));
                assert(tokens@.map_values(|t: String| t@)[k as int] == tokens@[k as int]@);
            }
            let t = &tokens[k];
            if t.as_str().unicode_len() > 0 && t.as_str().get_char(0) == 'v' {
                proof {
                    assert(spec_is_version_token(toks[k as int]));
                }
                vidx = Some(k);
                break;
            }
            k = k + 1;
        }
        let version: String = match vidx {
            Some(ki) => {
                let t = &tokens[ki];
                let len = t.as_str().unicode_len();
                let stripped = t.as_str().substring_char(1, len);
                proof {
                    assert(tokens@.map_values(|t: String| t@)[ki as int] == tokens@[ki as int]@);
                    assert(stripped@ =~= toks[ki as int].drop_first());
                }
                stripped.to_owned()
            },
            None => {
                proof {
                    reveal_strlit("0");
                    assert("0"@ =~= seq!['0']);
                }
                "0".to_owned()
            },
        };
        proof {
            assert(version@ == spec_version_of(toks));
        }
        // The title ID: first non-version token of 6 to 16 characters.
        let mut k: usize = 0;
        proof {
            assert(toks.skip(0) =~= toks);
        }
        while k < tokens.len()
            invariant
                k <= tokens@.len(),
                toks == spec_bracket_tokens(name@),
                toks == tokens@.map_values(|t: String| t@),
                version@ == spec_version_of(toks),
                spec_first_title(toks) == match spec_first_title(toks.skip(k as int)) {
                    Some(j) => Some(j + k),
                    None => None::<int>,
                },
                forall|j: int| 0 <= j < k ==> !spec_is_title_token(toks[j]),
            decreases tokens@.len() - k,
        {
            proof {
                assert(toks.skip(k as int)[0] == toks[k as int]);
                assert(toks.skip(k as int).drop_first() =~= toks.skip(k + 1));
                assert(tokens@.map_values(|t: String| t@)[k as int] == tokens@[k as int]@);
            }
            let t = &tokens[k];
            let len = t.as_str().unicode_len();
            let is_version = len > 0 && t.as_str().get_char(0) == 'v';
            if !is_version && 6 <= len && len <= 16 {
                proof {
                    assert(spec_is_title_token(toks[k as int]));
                    assert(spec_first_title(toks) == Some(k as int));
                }
                return Ok(Extractor { title_id: t.clone(), version });
            }
            k = k + 1;
        }
        proof {
            assert(toks.skip(tokens@.len() as int) =~= Seq::<Seq<char>>::empty());
        }
        Err(GameError::BadNameFormat(path.to_owned()))
    }

    /// Extract from a parsed container instead: the ticket gives the
    /// title ID; no version can be read without decrypting the content
    /// meta, so it defaults to `0`.
    pub fn from_nsp(nsp: &Nsp) -> (r: Result<Extractor, GameError>)
        ensures
            match nsp.spec_title_id() {
                Some(t) => r matches Ok(ex) && ex.title_id@ == t && ex.version@ == seq!['0'],
                None => r matches Err(e) && e matches GameError::NspError(n) && n is NoTicket,
            },
    {
        match nsp.title_id() {
            Ok(title_id) => {
                proof {
                    reveal_strlit("0");
                    assert("0"@ =~= seq!['0']);
                }
                Ok(Extractor { title_id, version: "0".to_owned() })
            },
            Err(e) => Err(GameError::NspError(e)),
        }
    }
}

/// Immutable metadata of one archive: title ID, display name (the file's
/// base name), size in bytes at scan time, and version.
#[derive(Debug)]
pub struct GameInfo {
    pub id: String,
    pub name: String,
    pub size: u64,
    pub version: String,
}

impl GameInfo {
    /// Assemble the metadata of an archive from what was extracted and
    /// measured.
    pub fn new(ex: Extractor, name: String, size: u64) -> (r: GameInfo)
        ensures
            r.id == ex.title_id,
            r.version == ex.version,
            r.name == name,
            r.size == size,
    {
        GameInfo { id: ex.title_id, name, size, version: ex.version }
    }

    /// The archive's title ID.
    pub fn title_id(&self) -> (r: &str)
        ensures
            r@ == self.id@,
    {
        self.id.as_str()
    }

    /// The archive's size in bytes at scan time.
    pub fn size(&self) -> (r: u64)
        ensures
            r == self.size,
    {
        self.size
    }

    /// Whether two records carry the same metadata.
    pub open spec fn spec_eq(self, o: GameInfo) -> bool {
        self.id@ == o.id@ && self.name@ == o.name@ && self.size == o.size && self.version@
            == o.version@
    }
}

impl PartialEq for GameInfo {
    /// Structural equality over the four metadata fields.
    fn eq(&self, o: &GameInfo) -> (r: bool) {
        crate::strutil::str_eq(self.id.as_str(), o.id.as_str()) && crate::strutil::str_eq(
            self.name.as_str(),
            o.name.as_str(),
        ) && self.size == o.size && crate::strutil::str_eq(
            self.version.as_str(),
            o.version.as_str(),
        )
    }
}

impl vstd::std_specs::cmp::PartialEqSpecImpl for GameInfo {
    open spec fn obeys_eq_spec() -> bool {
        true
    }

    open spec fn eq_spec(&self, o: &GameInfo) -> bool {
        self.spec_eq(*o)
    }
}

/// A listed archive: its metadata and its absolute path.  Two games are
/// the same exactly when their metadata is; the path does not take part.
#[derive(Debug)]
pub struct Game {
    pub info: GameInfo,
    pub path: String,
}

impl Game {
    /// A game record for an archive at `path`.
    pub fn new(info: GameInfo, path: String) -> (r: Game)
        ensures
            r.info == info,
            r.path == path,
    {
        Game { info, path }
    }

    /// The archive's size in bytes.
    pub fn size(&self) -> (r: u64)
        ensures
            r == self.info.size,
    {
        self.info.size()
    }

    /// The archive's path.
    pub fn path(&self) -> (r: &String)
        ensures
            r@ == self.path@,
    {
        &self.path
    }

    /// The archive's metadata.
    pub fn game_info(&self) -> (r: &GameInfo)
        ensures
            *r == self.info,
    {
        &self.info
    }
}

impl PartialEq for Game {
    /// Game equality is structural equality of the metadata.
    fn eq(&self, o: &Game) -> (r: bool) {
        self.info == o.info
    }
}

impl vstd::std_specs::cmp::PartialEqSpecImpl for Game {
    open spec fn obeys_eq_spec() -> bool {
        true
    }

    open spec fn eq_spec(&self, o: &Game) -> bool {
        self.info.spec_eq(o.info)
    }
}

} // verus!
