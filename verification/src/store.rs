//! The document store's logic: the cache of loaded documents, keyed by URL
//! path, and the mapping from a URL path to the file that holds its document.
//!
//! A URL path maps to a file under the data directory: its leading slashes
//! are dropped, the rest is split at each `/`, all segments but the last
//! name directories, and `.json` is appended to the last one.
use crate::json::{
    has_name, insert_member, last_index, lemma_members_insert, lemma_members_model, lookup, members_insert,
    members_model, JsonModel, JsonValue,
};
use crate::json_text::{json_text_value, parse_json_text};
use crate::text::str_eq;
use vstd::prelude::*;
use vstd::string::*;

verus! {

/// Loaded documents, each under the key of its URL path.
#[derive(Debug)]
pub struct DocumentCache {
    entries: Vec<(String, JsonValue)>,
}

impl View for DocumentCache {
    type V = Map<Seq<char>, JsonModel>;

    closed spec fn view(&self) -> Map<Seq<char>, JsonModel> {
        let ms = members_model(self.entries@);
        Map::new(|k: Seq<char>| has_name(ms, k), |k: Seq<char>| lookup(ms, k)->0)
    }
}

/// Whether no two members share a name.
pub open spec fn names_unique(ms: Seq<(Seq<char>, JsonModel)>) -> bool {
    forall|i: int, j: int| 0 <= i < j < ms.len() ==> #[trigger] ms[i].0 != #[trigger] ms[j].0
}

/// Setting a member keeps the names unique.
pub proof fn lemma_members_insert_unique(ms: Seq<(Seq<char>, JsonModel)>, k: Seq<char>, v: JsonModel)
    requires
        names_unique(ms),
    ensures
        names_unique(members_insert(ms, k, v)),
{
    crate::json::lemma_last_index(ms, k);
    let r = members_insert(ms, k, v);
    assert forall|i: int, j: int| 0 <= i < j < r.len() implies #[trigger] r[i].0 != #[trigger] r[j].0 by {
        if last_index(ms, k) < 0 {
            if j == ms.len() {
                assert(r[i] == ms[i]);
            } else {
                assert(r[i] == ms[i] && r[j] == ms[j]);
            }
        } else {
            let x = last_index(ms, k);
            if i == x {
                assert(ms[j].0 != ms[x].0);
            } else if j == x {
                assert(ms[i].0 != ms[x].0);
            } else {
                assert(r[i] == ms[i] && r[j] == ms[j]);
            }
        }
    }
}

impl DocumentCache {
    /// Each key is held at most once.
    #[verifier::type_invariant]
    spec fn keys_unique(self) -> bool {
        names_unique(members_model(self.entries@))
    }

    /// An empty cache.
    pub fn new() -> (r: DocumentCache)
        ensures
            r@ == Map::<Seq<char>, JsonModel>::empty(),
    {
        let r = DocumentCache { entries: Vec::new() };
        proof {
            lemma_members_model(r.entries@);
            assert(r@ =~= Map::<Seq<char>, JsonModel>::empty());
        }
        r
    }

    /// A cache holding one document under `key`.
    pub fn with_document(key: &str, document: JsonValue) -> (r: DocumentCache)
        ensures
            r@ == Map::<Seq<char>, JsonModel>::empty().insert(key@, document@),
    {
        let mut r = DocumentCache::new();
        r.insert(key, document);
        r
    }

    /// A copy of the document under `key`, if the cache holds one.
    pub fn get(&self, key: &str) -> (r: Option<JsonValue>)
        ensures
            match r {
                Some(v) => self@.contains_key(key@) && v@ == self@[key@],
                None => !self@.contains_key(key@),
            },
    {
        proof {
            lemma_members_model(self.entries@);
        }
        match crate::json::find_member(&self.entries, key) {
            Some(i) => Some(self.entries[i].1.deep_copy()),
            None => None,
        }
    }

    /// Puts `document` under `key`, replacing what was there.
    pub fn insert(&mut self, key: &str, document: JsonValue)
        ensures
            final(self)@ == old(self)@.insert(key@, document@),
    {
        proof {
            use_type_invariant(&*self);
        }
        let ghost before = members_model(self.entries@);
        let ghost dv = document@;
        proof {
            lemma_members_insert_unique(before, key@, dv);
        }
        let mut entries: Vec<(String, JsonValue)> = Vec::new();
        proof {
            lemma_members_model(entries@);
        }
        std::mem::swap(&mut entries, &mut self.entries);
        insert_member(&mut entries, String::from_str(key), document);
        self.entries = entries;
        proof {
            lemma_members_insert(before, key@, dv);
            assert(self@ =~= old(self)@.insert(key@, dv));
        }
    }
}

/// Reads the document held by a file's `contents` as JSON text and caches it
/// under `key`. Text that is not JSON is refused with `serde_json`'s account
/// of what is wrong with it, and the cache is left as it was.
pub fn load_document(cache: &mut DocumentCache, key: &str, contents: &str) -> (r: Result<JsonValue, String>)
    ensures
        match json_text_value(contents@) {
            None => r is Err && final(cache)@ == old(cache)@,
            Some(v) => r matches Ok(d) && d@ == v && final(cache)@ == old(cache)@.insert(key@, v),
        },
{
    match parse_json_text(contents) {
        Ok(document) => {
            cache.insert(key, document.deep_copy());
            Ok(document)
        },
        Err(e) => Err(e),
    }
}

// ---------------------------------------------------------------------------
// From URL paths to files
// ---------------------------------------------------------------------------
/// The path without its leading slashes.
pub open spec fn strip_slashes(s: Seq<char>) -> Seq<char>
    decreases s.len(),
{
    if s.len() > 0 && s[0] == '/' {
        strip_slashes(s.drop_first())
    } else {
        s
    }
}

/// The pieces of `s` between the occurrences of `c`, the piece under way
/// being `cur`.
pub open spec fn split_from(s: Seq<char>, c: char, cur: Seq<char>) -> Seq<Seq<char>>
    decreases s.len(),
{
    if s.len() == 0 {
        seq![cur]
    } else if s[0] == c {
        seq![cur] + split_from(s.drop_first(), c, Seq::empty())
    } else {
        split_from(s.drop_first(), c, cur.push(s[0]))
    }
}

/// The pieces of `s` between the occurrences of `c` (one more piece than
/// there are occurrences).
pub open spec fn split_on(s: Seq<char>, c: char) -> Seq<Seq<char>> {
    split_from(s, c, Seq::empty())
}

/// Whether a path segment names nothing: it is empty or `.`. A file system
/// path skips such segments.
pub open spec fn is_empty_segment(p: Seq<char>) -> bool {
    p.len() == 0 || p == "."@
}

/// The segments that name an entry, in order: the others skipped.
pub open spec fn named_segments(pieces: Seq<Seq<char>>) -> Seq<Seq<char>>
    decreases pieces.len(),
{
    if pieces.len() == 0 {
        Seq::empty()
    } else {
        let rest = named_segments(pieces.drop_last());
        if is_empty_segment(pieces.last()) {
            rest
        } else {
            rest.push(pieces.last())
        }
    }
}

/// The path segments of the file that holds the document of cache key `key`:
/// the key's `/`-separated segments that name an entry (empty and `.`
/// segments are skipped), `.json` appended to the last. `None` when a
/// segment is `..`, or when no segment names an entry, so that only files
/// under the data directory are named.
pub open spec fn spec_document_file(key: Seq<char>) -> Option<Seq<Seq<char>>> {
    let pieces = split_on(key, '/');
    let named = named_segments(pieces);
    if (forall|i: int| 0 <= i < pieces.len() ==> #[trigger] pieces[i] != ".."@) && named.len() > 0 {
        Some(named.update(named.len() - 1, named.last() + ".json"@))
    } else {
        None
    }
}

/// A split always has at least one piece.
pub proof fn lemma_split_nonempty(s: Seq<char>, c: char, cur: Seq<char>)
    ensures
        split_from(s, c, cur).len() >= 1,
    decreases s.len(),
{
    if s.len() > 0 {
        if s[0] == c {
            lemma_split_nonempty(s.drop_first(), c, Seq::empty());
        } else {
            lemma_split_nonempty(s.drop_first(), c, cur.push(s[0]));
        }
    }
}

/// The cache key of a URL path: the path without its leading slashes.
pub fn cache_key(url_path: &str) -> (r: String)
    ensures
        r@ == strip_slashes(url_path@),
{
    let n = url_path.unicode_len();
    let mut k: usize = 0;
    assert(url_path@.skip(0) =~= url_path@);
    while k < n && url_path.get_char(k) == '/'
        invariant
            k <= n,
            n == url_path@.len(),
            strip_slashes(url_path@) == strip_slashes(url_path@.skip(k as int)),
        decreases n - k,
    {
        proof {
            let rest = url_path@.skip(k as int);
            assert(rest.drop_first() =~= url_path@.skip(k + 1));
        }
        k = k + 1;
    }
    proof {
        assert(url_path@.skip(k as int) =~= url_path@.subrange(k as int, n as int));
    }
    String::from_str(url_path.substring_char(k, n))
}

/// The path segments of the file that holds the document of cache key `key`
/// (see `spec_document_file`).
pub fn document_file(key: &str) -> (r: Option<Vec<String>>)
    ensures
        match r {
            Some(v) => spec_document_file(key@) is Some && v@.len() == spec_document_file(key@)->0.len()
                && forall|i: int| 0 <= i < v@.len() ==> #[trigger] v@[i]@ == spec_document_file(key@)->0[i],
            None => spec_document_file(key@) is None,
        },
{
    let n = key.unicode_len();
    let mut segments: Vec<String> = Vec::new();
    let mut start: usize = 0;
    let mut i: usize = 0;
    let ghost s = key@;
    proof {
        assert(s.skip(0) =~= s);
        assert(s.subrange(0, 0) =~= Seq::<char>::empty());
    }
    while i < n
        invariant
            n == s.len(),
            s == key@,
            start <= i <= n,
            split_on(s, '/') =~= Seq::new(segments@.len(), |j: int| segments@[j]@) + split_from(
                s.skip(i as int),
                '/',
                s.subrange(start as int, i as int),
            ),
        decreases n - i,
    {
        let ghost before = Seq::new(segments@.len(), |j: int| segments@[j]@);
        proof {
            let rest = s.skip(i as int);
            assert(rest[0] == s[i as int]);
            assert(rest.drop_first() =~= s.skip(i + 1));
        }
        if key.get_char(i) == '/' {
            segments.push(String::from_str(key.substring_char(start, i)));
            proof {
                assert(Seq::new(segments@.len(), |j: int| segments@[j]@) =~= before.push(
                    s.subrange(start as int, i as int),
                ));
                assert(s.subrange(i + 1, i + 1) =~= Seq::<char>::empty());
            }
            start = i + 1;
        } else {
            proof {
                assert(s.subrange(start as int, i as int).push(s[i as int]) =~= s.subrange(
                    start as int,
                    i + 1,
                ));
            }
        }
        i = i + 1;
    }
    let ghost before = Seq::new(segments@.len(), |j: int| segments@[j]@);
    segments.push(String::from_str(key.substring_char(start, n)));
    let ghost pieces = split_on(s, '/');
    proof {
        assert(s.skip(n as int) =~= Seq::<char>::empty());
        assert(pieces =~= before.push(s.subrange(start as int, n as int)));
        assert(pieces =~= Seq::new(segments@.len(), |j: int| segments@[j]@));
    }
    let mut named: Vec<String> = Vec::new();
    let mut j: usize = 0;
    proof {
        assert(pieces.take(0) =~= Seq::<Seq<char>>::empty());
    }
    while j < segments.len()
        invariant
            j <= segments@.len(),
            pieces == split_on(key@, '/'),
            pieces.len() == segments@.len(),
            forall|k: int| 0 <= k < segments@.len() ==> #[trigger] pieces[k] == segments@[k]@,
            forall|k: int| 0 <= k < j ==> #[trigger] pieces[k] != ".."@,
            named@.len() == named_segments(pieces.take(j as int)).len(),
            forall|k: int| 0 <= k < named@.len() ==> #[trigger] named@[k]@ == named_segments(pieces.take(j as int))[k],
        decreases segments@.len() - j,
    {
        let piece = segments[j].as_str();
        assert(pieces[j as int] == piece@);
        proof {
            let next = pieces.take(j + 1);
            assert(next.drop_last() =~= pieces.take(j as int));
            assert(next.last() == pieces[j as int]);
        }
        if str_eq(piece, "..") {
            assert(!(forall|i: int| 0 <= i < pieces.len() ==> #[trigger] pieces[i] != ".."@));
            return None;
        }
        if !(piece.unicode_len() == 0 || str_eq(piece, ".")) {
            named.push(String::from_str(piece));
        }
        j = j + 1;
    }
    proof {
        assert(pieces.take(pieces.len() as int) =~= pieces);
    }
    if named.len() == 0 {
        return None;
    }
    let mut last = named.pop().unwrap();
    last.append(".json");
    named.push(last);
    proof {
        let nm = named_segments(pieces);
        let expected = nm.update(nm.len() - 1, nm.last() + ".json"@);
        assert(spec_document_file(s) == Some(expected));
        assert forall|i: int| 0 <= i < named@.len() implies #[trigger] named@[i]@ == expected[i] by {}
    }
    Some(named)
}


// ---------------------------------------------------------------------------
// Serving a URL path
// ---------------------------------------------------------------------------
/// Where the document of a URL path comes from.
#[derive(Debug)]
pub enum Fetch {
    /// The cache holds it: it is served without reading its file again.
    Cached(JsonValue),
    /// It is to be read from the file with these path segments, then loaded
    /// into the cache.
    Read(Vec<String>),
    /// No file under the data directory can hold it.
    Missing,
}

/// The model of where a document comes from.
pub enum FetchModel {
    Cached(JsonModel),
    Read(Seq<Seq<char>>),
    Missing,
}

impl View for Fetch {
    type V = FetchModel;

    open spec fn view(&self) -> FetchModel {
        match self {
            Fetch::Cached(d) => FetchModel::Cached(d@),
            Fetch::Read(segments) => FetchModel::Read(segments@.map_values(|p: String| p@)),
            Fetch::Missing => FetchModel::Missing,
        }
    }
}

/// Where the document of `url_path` comes from: the cache when it holds the
/// path's key, else the path's file, else nowhere.
pub open spec fn fetch_model(cache: Map<Seq<char>, JsonModel>, url_path: Seq<char>) -> FetchModel {
    let key = strip_slashes(url_path);
    if cache.contains_key(key) {
        FetchModel::Cached(cache[key])
    } else {
        match spec_document_file(key) {
            Some(file) => FetchModel::Read(file),
            None => FetchModel::Missing,
        }
    }
}

/// Where the document of `url_path` comes from (see `fetch_model`): a
/// document once loaded is served from the cache from then on.
pub fn fetch(cache: &DocumentCache, url_path: &str) -> (r: Fetch)
    ensures
        r@ == fetch_model(cache@, url_path@),
{
    let key = cache_key(url_path);
    match cache.get(key.as_str()) {
        Some(document) => Fetch::Cached(document),
        None => match document_file(key.as_str()) {
            Some(segments) => {
                proof {
                    let file = spec_document_file(key@)->0;
                    assert(segments@.map_values(|p: String| p@) =~= file);
                }
                Fetch::Read(segments)
            },
            None => Fetch::Missing,
        },
    }
}

} // verus!
