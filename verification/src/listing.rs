//! The listing index: a catalogue of admitted archives keyed by title ID,
//! with a secondary index from file path to title ID.  Both mappings are
//! association vectors with unique keys, so iteration order is insertion
//! order and every lookup is pinned by the map view.

use vstd::prelude::*;
use vstd::pervasive::VecAdditionalExecFns;
use crate::game::{Game, GameError};
use crate::strutil::str_eq;

verus! {

/// Whether the keys of an entry sequence are pairwise distinct.
pub open spec fn spec_distinct_keys<T>(s: Seq<(String, T)>) -> bool {
    forall|i: int, j: int| 0 <= i < j < s.len() ==> (#[trigger] s[i]).0@ != (#[trigger] s[j]).0@
}

/// The mapping denoted by an entry sequence; a later entry wins, though
/// with distinct keys there is nothing to win.
pub open spec fn spec_map_of<T>(s: Seq<(String, T)>) -> Map<Seq<char>, T>
    decreases s.len(),
{
    if s.len() == 0 {
        Map::empty()
    } else {
        spec_map_of(s.drop_last()).insert(s.last().0@, s.last().1)
    }
}

/// A key is in the mapping exactly when some entry carries it.
proof fn lemma_map_of_contains<T>(s: Seq<(String, T)>, k: Seq<char>)
    ensures
        spec_map_of(s).contains_key(k) <==> exists|i: int| 0 <= i < s.len() && (#[trigger] s[i]).0@
            == k,
    decreases s.len(),
{
    if s.len() == 0 {
    } else {
        lemma_map_of_contains(s.drop_last(), k);
        if s.last().0@ == k {
            assert(s[s.len() - 1].0@ == k);
        } else {
            if spec_map_of(s).contains_key(k) {
                let i = choose|i: int|
                    0 <= i < s.drop_last().len() && (#[trigger] s.drop_last()[i]).0@ == k;
                assert(s[i].0@ == k);
            }
            if exists|i: int| 0 <= i < s.len() && (#[trigger] s[i]).0@ == k {
                let i = choose|i: int| 0 <= i < s.len() && (#[trigger] s[i]).0@ == k;
                assert(i < s.len() - 1);
                assert(s.drop_last()[i].0@ == k);
            }
        }
    }
}

/// With distinct keys, the mapping sends each entry's key to its value.
proof fn lemma_map_of_index<T>(s: Seq<(String, T)>, i: int)
    requires
        spec_distinct_keys(s),
        0 <= i < s.len(),
    ensures
        spec_map_of(s).contains_key(s[i].0@),
        spec_map_of(s)[s[i].0@] == s[i].1,
    decreases s.len(),
{
    if i < s.len() - 1 {
        assert(spec_distinct_keys(s.drop_last())) by {
            assert(forall|a: int, b: int|
                0 <= a < b < s.drop_last().len() ==> (#[trigger] s.drop_last()[a]).0@ != (
                #[trigger] s.drop_last()[b]).0@) by {
                assert(forall|a: int|
                    0 <= a < s.drop_last().len() ==> #[trigger] s.drop_last()[a] == s[a]);
            }
        }
        assert(s.drop_last()[i] == s[i]);
        lemma_map_of_index(s.drop_last(), i);
        assert(s[i].0@ != s.last().0@);
    }
}

/// Appending a fresh entry inserts its pair into the mapping.
proof fn lemma_map_of_push<T>(s: Seq<(String, T)>, e: (String, T))
    ensures
        spec_map_of(s.push(e)) == spec_map_of(s).insert(e.0@, e.1),
{
    assert(s.push(e).drop_last() =~= s);
    assert(s.push(e).last() == e);
}

/// Replacing the value of an entry in place updates the mapping at its
/// key and nothing else.
proof fn lemma_map_of_update<T>(s: Seq<(String, T)>, i: int, e: (String, T))
    requires
        spec_distinct_keys(s),
        0 <= i < s.len(),
        e.0@ == s[i].0@,
    ensures
        spec_map_of(s.update(i, e)) == spec_map_of(s).insert(e.0@, e.1),
    decreases s.len(),
{
    let s2 = s.update(i, e);
    if i == s.len() - 1 {
        assert(s2.drop_last() =~= s.drop_last());
        assert(s2.last() == e);
        assert(spec_map_of(s.drop_last()).insert(s.last().0@, s.last().1).insert(e.0@, e.1)
            =~= spec_map_of(s.drop_last()).insert(e.0@, e.1));
    } else {
        assert(spec_distinct_keys(s.drop_last())) by {
            assert(forall|a: int|
                0 <= a < s.drop_last().len() ==> #[trigger] s.drop_last()[a] == s[a]);
        }
        assert(s.drop_last()[i] == s[i]);
        lemma_map_of_update(s.drop_last(), i, e);
        assert(s2.drop_last() =~= s.drop_last().update(i, e));
        assert(s2.last() == s.last());
        assert(s.last().0@ != e.0@);
        assert(spec_map_of(s.drop_last()).insert(e.0@, e.1).insert(s.last().0@, s.last().1)
            =~= spec_map_of(s.drop_last()).insert(s.last().0@, s.last().1).insert(e.0@, e.1));
    }
}

/// A mapping from strings to values, kept as an association vector whose
/// keys are unique; iteration order is insertion order.
pub struct StringMap<T> {
    entries: Vec<(String, T)>,
}

impl<T> StringMap<T> {
    /// The keys, in insertion order.
    pub closed spec fn key_seq(&self) -> Seq<Seq<char>> {
        self.entries@.map_values(|p: (String, T)| p.0@)
    }

    /// The values, in insertion order.
    pub closed spec fn val_seq(&self) -> Seq<T> {
        self.entries@.map_values(|p: (String, T)| p.1)
    }

    /// The mapping itself.
    pub closed spec fn as_map(&self) -> Map<Seq<char>, T> {
        spec_map_of(self.entries@)
    }

    /// Key uniqueness; every operation preserves it.
    pub closed spec fn wf(&self) -> bool {
        spec_distinct_keys(self.entries@)
    }

    /// How the three views fit together: keys and values pair up through
    /// the mapping, and the mapping holds no other keys.
    pub proof fn lemma_view(&self)
        requires
            self.wf(),
        ensures
            self.key_seq().len() == self.val_seq().len(),
            forall|i: int|
                0 <= i < self.key_seq().len() ==> self.as_map().contains_key(
                    #[trigger] self.key_seq()[i],
                ) && self.as_map()[self.key_seq()[i]] == self.val_seq()[i],
            forall|k: Seq<char>|
                self.as_map().contains_key(k) ==> exists|i: int|
                    0 <= i < self.key_seq().len() && #[trigger] self.key_seq()[i] == k,
    {
        assert forall|i: int| 0 <= i < self.key_seq().len() implies self.as_map().contains_key(
            #[trigger] self.key_seq()[i],
        ) && self.as_map()[self.key_seq()[i]] == self.val_seq()[i] by {
            lemma_map_of_index(self.entries@, i);
        }
        assert forall|k: Seq<char>| self.as_map().contains_key(k) implies exists|i: int|
            0 <= i < self.key_seq().len() && #[trigger] self.key_seq()[i] == k by {
            lemma_map_of_contains(self.entries@, k);
            let i = choose|i: int| 0 <= i < self.entries@.len() && (#[trigger] self.entries@[i]).0@
                == k;
            assert(self.key_seq()[i] == k);
        }
    }

    /// A fresh, empty mapping.
    pub fn new() -> (r: StringMap<T>)
        ensures
            r.wf(),
            r.as_map() == Map::<Seq<char>, T>::empty(),
            r.key_seq() == Seq::<Seq<char>>::empty(),
            r.val_seq() == Seq::<T>::empty(),
    {
        let r = StringMap { entries: Vec::new() };
        proof {
            assert(r.key_seq() =~= Seq::<Seq<char>>::empty());
            assert(r.val_seq() =~= Seq::<T>::empty());
        }
        r
    }

    /// How many pairs the mapping holds.
    pub fn len(&self) -> (r: usize)
        ensures
            r == self.key_seq().len(),
    {
        self.entries.len()
    }

    /// Whether the mapping holds no pairs.
    pub fn is_empty(&self) -> (r: bool)
        ensures
            r == (self.key_seq().len() == 0),
    {
        self.entries.is_empty()
    }

    /// The key at a position, in insertion order.
    pub fn key_at(&self, i: usize) -> (r: &String)
        requires
            i < self.key_seq().len(),
        ensures
            r@ == self.key_seq()[i as int],
    {
        &self.entries[i].0
    }

    /// The value at a position, in insertion order.
    pub fn val_at(&self, i: usize) -> (r: &T)
        requires
            i < self.key_seq().len(),
        ensures
            *r == self.val_seq()[i as int],
    {
        &self.entries[i].1
    }

    /// The position of the entry carrying a key, if any.
    fn index_of(&self, k: &str) -> (r: Option<usize>)
        ensures
            match r {
                Some(i) => i < self.key_seq().len() && self.key_seq()[i as int] == k@,
                None => forall|j: int|
                    0 <= j < self.key_seq().len() ==> #[trigger] self.key_seq()[j] != k@,
            },
    {
        let mut i: usize = 0;
        while i < self.entries.len()
            invariant
                i <= self.entries@.len(),
                forall|j: int| 0 <= j < i ==> #[trigger] self.key_seq()[j] != k@,
            decreases self.entries@.len() - i,
        {
            if str_eq(self.entries[i].0.as_str(), k) {
                return Some(i);
            }
            i = i + 1;
        }
        None
    }

    /// Look a key up.
    pub fn get(&self, k: &str) -> (r: Option<&T>)
        requires
            self.wf(),
        ensures
            r is Some <==> self.as_map().contains_key(k@),
            r matches Some(v) ==> self.as_map()[k@] == *v,
    {
        proof {
            lemma_map_of_contains(self.entries@, k@);
        }
        match self.index_of(k) {
            Some(i) => {
                proof {
                    lemma_map_of_index(self.entries@, i as int);
                }
                Some(&self.entries[i].1)
            },
            None => {
                proof {
                    if self.as_map().contains_key(k@) {
                        let j = choose|j: int|
                            0 <= j < self.entries@.len() && (#[trigger] self.entries@[j]).0@ == k@;
                        assert(self.key_seq()[j] == k@);
                    }
                }
                None
            },
        }
    }

    /// Bind a key to a value: an existing entry is replaced in place, a
    /// new key is appended, so the order of existing keys never changes.
    pub fn insert(&mut self, k: String, v: T)
        requires
            old(self).wf(),
        ensures
            final(self).wf(),
            final(self).as_map() == old(self).as_map().insert(k@, v),
            final(self).key_seq() == if old(self).as_map().contains_key(k@) {
                old(self).key_seq()
            } else {
                old(self).key_seq().push(k@)
            },
    {
        proof {
            lemma_map_of_contains(self.entries@, k@);
        }
        match self.index_of(k.as_str()) {
            Some(i) => {
                proof {
                    assert(self.entries@[i as int].0@ == k@);
                    lemma_map_of_update(self.entries@, i as int, (k, v));
                    assert(self.entries@.update(i as int, (k, v)).map_values(
                        |p: (String, T)| p.0@,
                    ) =~= self.key_seq());
                    assert forall|a: int, b: int|
                        0 <= a < b < self.entries@.len() implies (#[trigger] self.entries@.update(
                        i as int,
                        (k, v),
                    )[a]).0@ != (#[trigger] self.entries@.update(i as int, (k, v))[b]).0@ by {
                        assert(self.entries@[a].0@ != self.entries@[b].0@);
                    }
                }
                self.entries.set(i, (k, v));
            },
            None => {
                proof {
                    lemma_map_of_push(self.entries@, (k, v));
                    assert(self.entries@.push((k, v)).map_values(|p: (String, T)| p.0@)
                        =~= self.key_seq().push(k@));
                    if self.as_map().contains_key(k@) {
                        let j = choose|j: int|
                            0 <= j < self.entries@.len() && (#[trigger] self.entries@[j]).0@ == k@;
                        assert(self.key_seq()[j] == k@);
                    }
                    assert forall|a: int, b: int|
                        0 <= a < b < self.entries@.push((k, v)).len() implies (
                    #[trigger] self.entries@.push((k, v))[a]).0@ != (#[trigger] self.entries@.push(
                        (k, v),
                    )[b]).0@ by {
                        assert(forall|j: int|
                            0 <= j < self.entries@.len() ==> #[trigger] self.key_seq()[j] != k@);
                        if b == self.entries@.len() {
                            assert(self.key_seq()[a] == self.entries@[a].0@);
                        } else {
                            assert(self.entries@[a].0@ != self.entries@[b].0@);
                        }
                    }
                }
                self.entries.push((k, v));
            },
        }
    }
}

/// Errors while admitting paths into the listing.
#[derive(Debug)]
pub enum ListingError {
    /// The file's extension is not one of the archive extensions.
    NotArchive,
    /// The file's name carries no extension or is not valid UTF-8.
    BadName,
    /// Reading the file or directory failed; carries the error's text.
    IoError(String),
    /// The archive could not be turned into a game record.
    GameError(GameError),
}

/// How a lookup addresses the listing: by title ID, or by file path
/// through the secondary index.
pub enum ListingIndex<'a> {
    TitleId(&'a str),
    FileName(&'a str),
}

/// What admitting a game did to the listing.
#[derive(PartialEq, Eq, Structural, Clone, Copy, Debug)]
pub enum InsertOutcome {
    /// The title ID was new.
    Added,
    /// The title ID was present with different metadata; the record was
    /// replaced (a refresh).
    Replaced,
    /// The title ID was present with the same metadata.
    Unchanged,
}

/// The listing: archives by title ID, and a secondary index from file
/// path to title ID.  Every value of the secondary index is a key of the
/// primary map.
pub struct Listing {
    pub id_to_game: StringMap<Game>,
    pub file_to_id: StringMap<String>,
}

impl Listing {
    /// The primary mapping: title ID to game.
    pub open spec fn id_map_spec(&self) -> Map<Seq<char>, Game> {
        self.id_to_game.as_map()
    }

    /// The secondary mapping: file path to title ID.
    pub open spec fn file_map_spec(&self) -> Map<Seq<char>, String> {
        self.file_to_id.as_map()
    }

    /// Well-formedness: both maps keep their keys unique, and every value
    /// of the secondary map is a key of the primary map.
    pub open spec fn wf(&self) -> bool {
        &&& self.id_to_game.wf()
        &&& self.file_to_id.wf()
        &&& forall|p: Seq<char>|
            self.file_map_spec().contains_key(p) ==> self.id_map_spec().contains_key(
                (#[trigger] self.file_map_spec()[p])@,
            )
    }

    /// A fresh, empty listing.
    pub fn new() -> (r: Listing)
        ensures
            r.wf(),
            r.id_map_spec() == Map::<Seq<char>, Game>::empty(),
            r.file_map_spec() == Map::<Seq<char>, String>::empty(),
            r.id_to_game.key_seq() == Seq::<Seq<char>>::empty(),
            r.file_to_id.key_seq() == Seq::<Seq<char>>::empty(),
    {
        Listing { id_to_game: StringMap::new(), file_to_id: StringMap::new() }
    }

    /// The primary map, for lookups and iteration.
    pub fn id_map(&self) -> (r: &StringMap<Game>)
        ensures
            *r == self.id_to_game,
    {
        &self.id_to_game
    }

    /// The secondary map, for lookups and iteration.
    pub fn file_map(&self) -> (r: &StringMap<String>)
        ensures
            *r == self.file_to_id,
    {
        &self.file_to_id
    }

    /// Admit a game: bind its title ID to the record (replacing different
    /// metadata counts as a refresh) and its path to the title ID.  At
    /// insertion time, following the secondary index from the game's path
    /// leads back to a record with that very path.
    pub fn insert_game(&mut self, game: Game) -> (r: InsertOutcome)
        requires
            old(self).wf(),
        ensures
            final(self).wf(),
            final(self).id_map_spec() == old(self).id_map_spec().insert(
                game.info.id@,
                game,
            ),
            final(self).file_map_spec() == old(self).file_map_spec().insert(
                game.path@,
                game.info.id,
            ),
            final(self).file_map_spec()[game.path@]@ == game.info.id@,
            final(self).id_map_spec()[game.info.id@].path@ == game.path@,
            r == InsertOutcome::Added <==> !old(self).id_map_spec().contains_key(game.info.id@),
            r == InsertOutcome::Replaced <==> old(self).id_map_spec().contains_key(game.info.id@)
                && !old(self).id_map_spec()[game.info.id@].info.spec_eq(game.info),
            r == InsertOutcome::Unchanged <==> old(self).id_map_spec().contains_key(game.info.id@)
                && old(self).id_map_spec()[game.info.id@].info.spec_eq(game.info),
    {
        let id_key = game.info.id.clone();
        let id_value = game.info.id.clone();
        let path = game.path.clone();
        let outcome = match self.id_to_game.get(id_key.as_str()) {
            Some(existing) => {
                if existing.game_info() == game.game_info() {
                    InsertOutcome::Unchanged
                } else {
                    InsertOutcome::Replaced
                }
            },
            None => InsertOutcome::Added,
        };
        let ghost gid = game.info.id@;
        let ghost gpath = game.path@;
        self.id_to_game.insert(id_key, game);
        self.file_to_id.insert(path, id_value);
        proof {
            assert forall|p: Seq<char>| self.file_map_spec().contains_key(p) implies
                self.id_map_spec().contains_key((#[trigger] self.file_map_spec()[p])@) by {
                if p == gpath {
                    assert(self.file_map_spec()[p]@ == gid);
                } else {
                    assert(old(self).file_map_spec().contains_key(p));
                    assert(self.file_map_spec()[p] == old(self).file_map_spec()[p]);
                    assert(old(self).id_map_spec().contains_key(
                        old(self).file_map_spec()[p]@,
                    ));
                }
            }
        }
        outcome
    }

    /// Look a game up by title ID, or by file path through the secondary
    /// index.
    pub fn get_game(&self, index: ListingIndex) -> (r: Option<&Game>)
        requires
            self.wf(),
        ensures
            match index {
                ListingIndex::TitleId(t) => {
                    &&& r is Some <==> self.id_map_spec().contains_key(t@)
                    &&& r matches Some(g) ==> *g == self.id_map_spec()[t@]
                },
                ListingIndex::FileName(f) => {
                    &&& r is Some <==> self.file_map_spec().contains_key(f@)
                    &&& r matches Some(g) ==> *g == self.id_map_spec()[self.file_map_spec()[f@]@]
                },
            },
    {
        match index {
            ListingIndex::TitleId(t) => self.id_to_game.get(t),
            ListingIndex::FileName(f) => {
                match self.file_to_id.get(f) {
                    Some(id) => self.id_to_game.get(id.as_str()),
                    None => None,
                }
            },
        }
    }
}

/// The position of the last dot of a file name, if any.
pub open spec fn spec_last_dot(s: Seq<char>) -> Option<int>
    decreases s.len(),
{
    if s.len() == 0 {
        None
    } else if s[s.len() - 1] == '.' {
        Some(s.len() - 1)
    } else {
        spec_last_dot(s.drop_last())
    }
}

/// The extension of a file name: what follows the last dot.  A name
/// without a dot has none, and neither does one whose only dot leads it
/// (a hidden file).
pub open spec fn spec_extension(s: Seq<char>) -> Option<Seq<char>> {
    match spec_last_dot(s) {
        None => None,
        Some(i) => if i == 0 {
            None
        } else {
            Some(s.skip(i + 1))
        },
    }
}

/// Whether an extension is one of the admitted archive extensions.
pub open spec fn spec_is_archive_extension(e: Seq<char>) -> bool {
    e == "nsp"@ || e == "xci"@ || e == "nsz"@ || e == "nsx"@
}

/// Decide whether a file name may enter the listing: fails with
/// `BadName` when the name has no extension, and with `NotArchive` when
/// the extension is not an archive extension.
pub fn check_archive_name(name: &str) -> (r: Result<(), ListingError>)
    ensures
        match spec_extension(name@) {
            None => r matches Err(e) && e is BadName,
            Some(ext) => if spec_is_archive_extension(ext) {
                r is Ok
            } else {
                r matches Err(e) && e is NotArchive
            },
        },
{
    let n = name.unicode_len();
    let mut i: usize = n;
    proof {
        assert(name@.take(n as int) =~= name@);
    }
    while i > 0
        invariant
            i <= n,
            n == name@.len(),
            spec_last_dot(name@) == spec_last_dot(name@.take(i as int)),
        ensures
            i <= n,
            n == name@.len(),
            spec_last_dot(name@) == spec_last_dot(name@.take(i as int)),
            i == 0 || name@[i - 1] == '.',
            i > 0 ==> spec_last_dot(name@) == Some(i - 1),
        decreases i,
    {
        proof {
            assert(name@.take(i as int).last() == name@[i - 1]);
            assert(name@.take(i as int).drop_last() =~= name@.take(i - 1));
        }
        if name.get_char(i - 1) == '.' {
            break;
        }
        i = i - 1;
    }
    if i <= 1 {
        proof {
            if i == 0 {
                assert(name@.take(0) =~= Seq::<char>::empty());
            }
        }
        return Err(ListingError::BadName);
    }
    let ext = name.substring_char(i, n);
    proof {
        assert(ext@ =~= name@.skip(i as int));
    }
    proof {
        reveal_strlit("nsp");
        reveal_strlit("xci");
        reveal_strlit("nsz");
        reveal_strlit("nsx");
    }
    if str_eq(ext, "nsp") || str_eq(ext, "xci") || str_eq(ext, "nsz") || str_eq(ext, "nsx") {
        Ok(())
    } else {
        Err(ListingError::NotArchive)
    }
}

/// Every value of the secondary map is a key of the primary map: looking
/// a listed file path up always reaches a game.
pub proof fn lemma_secondary_index_closed(l: &Listing)
    requires
        l.wf(),
    ensures
        forall|p: Seq<char>|
            l.file_map_spec().contains_key(p) ==> l.id_map_spec().contains_key(
                (#[trigger] l.file_map_spec()[p])@,
            ),
{
}

} // verus!
