//! The font-instance cache: queued requirements, resolved paths, parsed fonts
//! and one warmed instance per (name, size) pair.

use vstd::prelude::*;
use crate::error::FontError;
use crate::outside::{font_parses, parse_font, system_font_path};

verus! {

/// A (font name, size bit pattern) pair: the key of one cached instance.
pub type CacheKey = (Seq<char>, u32);

/// A queued requirement: font name, size bit pattern, sample text.
pub type RequestView = (Seq<char>, u32, Seq<char>);

/// The characters that a sequence holds.
pub open spec fn char_set(s: Seq<char>) -> Set<char> {
    Set::new(|c: char| s.contains(c))
}

/// The cache after one requirement is served: its instance is created if
/// missing, and warmed with the characters of its sample text.
pub open spec fn warm_cache(cache: Map<CacheKey, Set<char>>, r: RequestView) -> Map<CacheKey, Set<char>> {
    let k = (r.0, r.1);
    let before = if cache.contains_key(k) { cache[k] } else { Set::empty() };
    cache.insert(k, before.union(char_set(r.2)))
}

/// The cache after a sequence of requirements is served in order.
pub open spec fn apply_requests(cache: Map<CacheKey, Set<char>>, q: Seq<RequestView>) -> Map<CacheKey, Set<char>>
    decreases q.len(),
{
    if q.len() == 0 {
        cache
    } else {
        warm_cache(apply_requests(cache, q.drop_last()), q.last())
    }
}

/// Requirements whose font is already parsed.
pub open spec fn servable(names: Seq<Seq<char>>) -> spec_fn(RequestView) -> bool {
    |r: RequestView| names.contains(r.0)
}

/// Requirements whose font still has to be read.
pub open spec fn unservable(names: Seq<Seq<char>>) -> spec_fn(RequestView) -> bool {
    |r: RequestView| !names.contains(r.0)
}

proof fn lemma_filter_push(s: Seq<RequestView>, x: RequestView, p: spec_fn(RequestView) -> bool)
    ensures
        s.push(x).filter(p) == if p(x) { s.filter(p).push(x) } else { s.filter(p) },
{
    reveal(Seq::filter);
    assert(s.push(x).drop_last() =~= s);
}

/// Serving requirements never drops a cached instance nor un-warms a
/// character: every earlier key stays, with at least its earlier characters.
pub proof fn lemma_resolution_keeps_cache(cache: Map<CacheKey, Set<char>>, q: Seq<RequestView>)
    ensures
        forall|k: CacheKey| #[trigger] cache.contains_key(k) ==> {
            &&& apply_requests(cache, q).contains_key(k)
            &&& cache[k].subset_of(apply_requests(cache, q)[k])
        },
    decreases q.len(),
{
    if q.len() > 0 {
        lemma_resolution_keeps_cache(cache, q.drop_last());
    }
}

/// Queueing one (name, size) pair twice, with two sample texts, yields one
/// instance warmed with the characters of both.
pub proof fn lemma_same_pair_merges(name: Seq<char>, size: u32, t1: Seq<char>, t2: Seq<char>)
    ensures
        apply_requests(Map::empty(), seq![(name, size, t1), (name, size, t2)])
            == Map::<CacheKey, Set<char>>::empty().insert((name, size), char_set(t1).union(char_set(t2))),
{
    let q = seq![(name, size, t1), (name, size, t2)];
    assert(q.drop_last() =~= seq![(name, size, t1)]);
    assert(seq![(name, size, t1)].drop_last() =~= Seq::<RequestView>::empty());
    let m0 = Map::<CacheKey, Set<char>>::empty();
    assert(apply_requests(m0, Seq::<RequestView>::empty()) == m0);
    assert(apply_requests(m0, seq![(name, size, t1)]) == warm_cache(m0, (name, size, t1)));
    assert(apply_requests(m0, q) == warm_cache(warm_cache(m0, (name, size, t1)), (name, size, t2)));
    assert(Set::<char>::empty().union(char_set(t1)) =~= char_set(t1));
    assert(apply_requests(Map::empty(), q)
        =~= Map::<CacheKey, Set<char>>::empty().insert((name, size), char_set(t1).union(char_set(t2))));
}

/// Sizes are keyed by bit pattern alone: two requests for one name share an
/// instance exactly when their size bits are equal.
pub proof fn lemma_sizes_keyed_by_bits(name: Seq<char>, a: u32, b: u32, t1: Seq<char>, t2: Seq<char>)
    ensures
        apply_requests(Map::empty(), seq![(name, a, t1), (name, b, t2)]).dom()
            == set![(name, a), (name, b)],
        set![(name, a), (name, b)].len() == if a == b { 1nat } else { 2nat },
{
    let q = seq![(name, a, t1), (name, b, t2)];
    assert(q.drop_last() =~= seq![(name, a, t1)]);
    assert(seq![(name, a, t1)].drop_last() =~= Seq::<RequestView>::empty());
    let m0 = Map::<CacheKey, Set<char>>::empty();
    assert(apply_requests(m0, Seq::<RequestView>::empty()) == m0);
    assert(apply_requests(m0, seq![(name, a, t1)]) == warm_cache(m0, (name, a, t1)));
    assert(apply_requests(m0, q) == warm_cache(warm_cache(m0, (name, a, t1)), (name, b, t2)));
    assert(apply_requests(m0, q).dom() =~= set![(name, a), (name, b)]);
    if a == b {
        assert(set![(name, a), (name, b)] =~= set![(name, a)]);
    } else {
        assert(set![(name, a), (name, b)] == Set::<CacheKey>::empty().insert((name, a)).insert((name, b)));
        assert(!Set::<CacheKey>::empty().insert((name, a)).contains((name, b)));
    }
}

/// A font size, compared by the exact bit pattern of its `f32` value: sizes
/// that differ in any bit are distinct keys, however close they are numerically.
#[derive(Debug, Clone, Copy, PartialEq, Eq, Structural, Hash)]
pub struct SizeKey {
    pub bits: u32,
}

impl SizeKey {
    /// The key of the `f32` whose bit pattern is `bits`.
    pub fn from_bits(bits: u32) -> (r: SizeKey)
        ensures
            r.bits == bits,
    {
        SizeKey { bits }
    }

    /// The bit pattern, widened.
    pub fn key(&self) -> (r: u64)
        ensures
            r == self.bits as u64,
    {
        self.bits as u64
    }
}

/// A queued requirement.
pub struct Request {
    pub name: String,
    pub size: SizeKey,
    pub text: String,
}

pub open spec fn request_view(r: Request) -> RequestView {
    (r.name@, r.size.bits, r.text@)
}

/// A rendering-ready instance: a parsed font at one size, with the characters
/// whose glyphs have been warmed.
pub struct FontInstance {
    pub name: String,
    pub size: SizeKey,
    /// Index of the parsed font in the map's font store.
    pub font: usize,
    pub glyphs: Vec<char>,
}

impl FontInstance {
    pub open spec fn key(&self) -> CacheKey {
        (self.name@, self.size.bits)
    }

    pub open spec fn warmed(&self) -> Set<char> {
        char_set(self.glyphs@)
    }

    /// Whether the glyph of `c` has been warmed.
    pub fn is_warmed(&self, c: char) -> (r: bool)
        ensures
            r == self.warmed().contains(c),
    {
        contains_char(&self.glyphs, c)
    }
}

/// A parsed font, kept for as long as the map lives.
pub struct LoadedFont {
    pub name: String,
    pub font: rusttype::Font<'static>,
}

/// What resolution needs from outside before it can go on.
pub enum LoadStep {
    /// Every queued requirement has been served.
    Done,
    /// The bytes of the file at `path`, for the font `name`.
    NeedFile { name: String, path: String },
}

/// The file path that the system font resolver gives for `name`;
/// `NameUnresolved` where it finds none.
pub fn find_font(name: &str) -> (r: Result<String, FontError>)
    ensures
        r.is_err() ==> r == Err::<String, FontError>(FontError::NameUnresolved),
{
    match system_font_path(name) {
        Some(p) => Ok(p),
        None => Err(FontError::NameUnresolved),
    }
}

/// The font-instance cache.
pub struct FontMap {
    ready: Vec<FontInstance>,
    paths: Vec<(String, String)>,
    pending: Vec<Request>,
    loaded: Vec<LoadedFont>,
    cache_model: Ghost<Map<CacheKey, Set<char>>>,
    path_model: Ghost<Map<Seq<char>, Seq<char>>>,
}

fn same_text(a: &str, b: &str) -> (r: bool)
    ensures
        r == (a@ == b@),
{
    let n = a.unicode_len();
    if n != b.unicode_len() {
        return false;
    }
    let mut i: usize = 0;
    while i < n
        invariant
            n == a@.len(),
            n == b@.len(),
            i <= n,
            forall|j: int| 0 <= j < i ==> a@[j] == b@[j],
        decreases n - i,
    {
        if a.get_char(i) != b.get_char(i) {
            return false;
        }
        i += 1;
    }
    proof {
        assert(a@ =~= b@);
    }
    true
}

fn contains_char(v: &Vec<char>, c: char) -> (r: bool)
    ensures
        r == v@.contains(c),
{
    let mut i: usize = 0;
    while i < v.len()
        invariant
            i <= v@.len(),
            forall|j: int| 0 <= j < i ==> v@[j] != c,
        decreases v@.len() - i,
    {
        if v[i] == c {
            return true;
        }
        i += 1;
    }
    false
}

/// Adds the characters of `text` that are not yet in `glyphs`.
fn warm_glyphs(glyphs: &mut Vec<char>, text: &str)
    ensures
        char_set(final(glyphs)@) == char_set(old(glyphs)@).union(char_set(text@)),
{
    let n = text.unicode_len();
    let mut i: usize = 0;
    while i < n
        invariant
            n == text@.len(),
            i <= n,
            char_set(glyphs@) == char_set(old(glyphs)@).union(char_set(text@.take(i as int))),
        decreases n - i,
    {
        let c = text.get_char(i);
        let ghost before = glyphs@;
        if !contains_char(glyphs, c) {
            glyphs.push(c);
        }
        proof {
            let t0 = text@.take(i as int);
            let t1 = text@.take(i as int + 1);
            assert(t1 =~= t0.push(c));
            assert forall|x: char| #[trigger] glyphs@.contains(x) <==> (before.contains(x) || x == c) by {
                if before.contains(x) {
                    let k = choose|k: int| 0 <= k < before.len() && before[k] == x;
                    assert(glyphs@[k] == x);
                }
                if x == c && !before.contains(x) {
                    assert(glyphs@[before.len() as int] == c);
                }
            }
            assert forall|x: char| #[trigger] t1.contains(x) <==> (t0.contains(x) || x == c) by {
                if t0.contains(x) {
                    let k = choose|k: int| 0 <= k < t0.len() && t0[k] == x;
                    assert(t1[k] == x);
                }
                if x == c {
                    assert(t1[i as int] == c);
                }
            }
            assert(char_set(before) == char_set(old(glyphs)@).union(char_set(t0)));
            assert forall|x: char| #[trigger] char_set(glyphs@).contains(x)
                == char_set(old(glyphs)@).union(char_set(t1)).contains(x) by {
                assert(char_set(before).contains(x) == before.contains(x));
                assert(char_set(t0).contains(x) == t0.contains(x));
            }
            assert(char_set(glyphs@) =~= char_set(old(glyphs)@).union(char_set(t1)));
        }
        i += 1;
    }
    proof {
        assert(text@.take(n as int) =~= text@);
    }
}

impl FontMap {
    /// What is cached: for each (name, size) pair, the warmed characters.
    pub closed spec fn cache(&self) -> Map<CacheKey, Set<char>> {
        self.cache_model@
    }

    /// The file path recorded for each font name.
    pub closed spec fn paths(&self) -> Map<Seq<char>, Seq<char>> {
        self.path_model@
    }

    /// The requirements queued and not yet served, in queue order.
    pub closed spec fn pending(&self) -> Seq<RequestView> {
        self.pending@.map_values(|r: Request| request_view(r))
    }

    /// The names whose font file has been parsed, in load order.
    pub closed spec fn loaded_names(&self) -> Seq<Seq<char>> {
        self.loaded@.map_values(|f: LoadedFont| f.name@)
    }

    pub closed spec fn wf(&self) -> bool {
        &&& forall|i: int, j: int|
            0 <= i < j < self.ready@.len() ==> self.ready@[i].key() != self.ready@[j].key()
        &&& forall|i: int|
            0 <= i < self.ready@.len() ==> {
                &&& self.cache_model@.contains_key(#[trigger] self.ready@[i].key())
                &&& self.cache_model@[self.ready@[i].key()] == self.ready@[i].warmed()
                &&& self.ready@[i].font < self.loaded@.len()
                &&& self.loaded@[self.ready@[i].font as int].name@ == self.ready@[i].name@
            }
        &&& forall|k: CacheKey|
            #[trigger] self.cache_model@.contains_key(k) ==> exists|i: int|
                0 <= i < self.ready@.len() && self.ready@[i].key() == k
        &&& forall|i: int, j: int|
            0 <= i < j < self.paths@.len() ==> self.paths@[i].0@ != self.paths@[j].0@
        &&& forall|i: int|
            0 <= i < self.paths@.len() ==> {
                &&& self.path_model@.contains_key(#[trigger] self.paths@[i].0@)
                &&& self.path_model@[self.paths@[i].0@] == self.paths@[i].1@
            }
        &&& forall|k: Seq<char>|
            #[trigger] self.path_model@.contains_key(k) ==> exists|i: int|
                0 <= i < self.paths@.len() && self.paths@[i].0@ == k
        &&& forall|i: int, j: int|
            0 <= i < j < self.loaded@.len() ==> self.loaded@[i].name@ != self.loaded@[j].name@
    }

    /// An empty map: nothing queued, no paths, nothing loaded.
    pub fn new() -> (r: FontMap)
        ensures
            r.wf(),
            r.cache() == Map::<CacheKey, Set<char>>::empty(),
            r.paths() == Map::<Seq<char>, Seq<char>>::empty(),
            r.pending() == Seq::<RequestView>::empty(),
            r.loaded_names() == Seq::<Seq<char>>::empty(),
    {
        let r = FontMap {
            ready: Vec::new(),
            paths: Vec::new(),
            pending: Vec::new(),
            loaded: Vec::new(),
            cache_model: Ghost(Map::empty()),
            path_model: Ghost(Map::empty()),
        };
        proof {
            assert(r.pending() =~= Seq::<RequestView>::empty());
            assert(r.loaded_names() =~= Seq::<Seq<char>>::empty());
        }
        r
    }

    /// Queues the need for `font_name` at `size`, to be warmed with `preload`.
    /// Nothing is read or checked until resolution.
    pub fn queue_font(&mut self, font_name: &str, size: SizeKey, preload: &str)
        requires
            old(self).wf(),
        ensures
            final(self).wf(),
            final(self).pending() == old(self).pending().push((font_name@, size.bits, preload@)),
            final(self).cache() == old(self).cache(),
            final(self).paths() == old(self).paths(),
            final(self).loaded_names() == old(self).loaded_names(),
    {
        let req = Request { name: font_name.to_owned(), size, text: preload.to_owned() };
        self.pending.push(req);
        proof {
            assert(self.ready == old(self).ready);
            assert(self.paths == old(self).paths);
            assert(self.loaded == old(self).loaded);
            assert(self.pending() =~= old(self).pending().push((font_name@, size.bits, preload@)));
        }
    }

    fn find_path(&self, font_name: &str) -> (r: Option<usize>)
        requires
            self.wf(),
        ensures
            match r {
                Some(i) => i < self.paths@.len() && self.paths@[i as int].0@ == font_name@,
                None => !self.paths().contains_key(font_name@),
            },
    {
        let mut i: usize = 0;
        while i < self.paths.len()
            invariant
                self.wf(),
                i <= self.paths@.len(),
                forall|j: int| 0 <= j < i ==> self.paths@[j].0@ != font_name@,
            decreases self.paths@.len() - i,
        {
            if same_text(self.paths[i].0.as_str(), font_name) {
                return Some(i);
            }
            i += 1;
        }
        None
    }

    /// Records `font_path` as the file of `font_name`, in place of the system
    /// font resolver. It takes effect for fonts not yet loaded.
    pub fn add_font_path(&mut self, font_name: &str, font_path: String)
        requires
            old(self).wf(),
        ensures
            final(self).wf(),
            final(self).paths() == old(self).paths().insert(font_name@, font_path@),
            final(self).cache() == old(self).cache(),
            final(self).pending() == old(self).pending(),
            final(self).loaded_names() == old(self).loaded_names(),
    {
        let ghost p = font_path@;
        let idx: usize = match self.find_path(font_name) {
            Some(i) => {
                let name = font_name.to_owned();
                self.paths.set(i, (name, font_path));
                i
            },
            None => {
                let n = self.paths.len();
                self.paths.push((font_name.to_owned(), font_path));
                n
            },
        };
        self.path_model = Ghost(self.path_model@.insert(font_name@, p));
        proof {
            assert(self.paths@[idx as int].0@ == font_name@);
            assert(self.ready == old(self).ready);
            assert(self.loaded == old(self).loaded);
            assert forall|i: int| 0 <= i < self.paths@.len() && i != idx implies
                #[trigger] self.paths@[i] == old(self).paths@[i] by {}
            assert forall|i: int, j: int| 0 <= i < j < self.paths@.len() implies
                self.paths@[i].0@ != self.paths@[j].0@ by {
                if i != idx && j != idx {
                    assert(old(self).paths@[i].0@ != old(self).paths@[j].0@);
                } else if i == idx {
                    assert(old(self).path_model@.contains_key(old(self).paths@[j].0@));
                } else {
                    assert(old(self).path_model@.contains_key(old(self).paths@[i].0@));
                }
            }
            assert forall|i: int| 0 <= i < self.paths@.len() implies {
                &&& self.path_model@.contains_key(#[trigger] self.paths@[i].0@)
                &&& self.path_model@[self.paths@[i].0@] == self.paths@[i].1@
            } by {
                if i != idx {
                    assert(old(self).path_model@.contains_key(old(self).paths@[i].0@));
                }
            }
            assert forall|k: Seq<char>| #[trigger] self.path_model@.contains_key(k) implies exists|i: int|
                0 <= i < self.paths@.len() && self.paths@[i].0@ == k by {
                if k != font_name@ {
                    let i = choose|i: int| 0 <= i < old(self).paths@.len() && old(self).paths@[i].0@ == k;
                    assert(self.paths@[i].0@ == k);
                }
            }
        }
    }

    fn find_ready(&self, font_name: &str, size: SizeKey) -> (r: Option<usize>)
        requires
            self.wf(),
        ensures
            match r {
                Some(i) => i < self.ready@.len() && self.ready@[i as int].key() == (font_name@, size.bits),
                None => !self.cache().contains_key((font_name@, size.bits)),
            },
    {
        let mut i: usize = 0;
        while i < self.ready.len()
            invariant
                self.wf(),
                i <= self.ready@.len(),
                forall|j: int| 0 <= j < i ==> self.ready@[j].key() != (font_name@, size.bits),
            decreases self.ready@.len() - i,
        {
            if self.ready[i].size == size && same_text(self.ready[i].name.as_str(), font_name) {
                return Some(i);
            }
            i += 1;
        }
        None
    }

    /// The cached instance of `font_name` at `size`; `NotLoaded` where that
    /// exact pair was never resolved. The map is not changed.
    pub fn get_font(&self, font_name: &str, size: SizeKey) -> (r: Result<&FontInstance, FontError>)
        requires
            self.wf(),
        ensures
            r.is_ok() == self.cache().contains_key((font_name@, size.bits)),
            match r {
                Ok(inst) => inst.key() == (font_name@, size.bits)
                    && inst.warmed() == self.cache()[(font_name@, size.bits)],
                Err(e) => e == FontError::NotLoaded,
            },
    {
        match self.find_ready(font_name, size) {
            Some(i) => Ok(&self.ready[i]),
            None => Err(FontError::NotLoaded),
        }
    }
    fn find_loaded(&self, font_name: &str) -> (r: Option<usize>)
        requires
            self.wf(),
        ensures
            match r {
                Some(i) => i < self.loaded@.len() && self.loaded@[i as int].name@ == font_name@,
                None => !self.loaded_names().contains(font_name@),
            },
    {
        let mut i: usize = 0;
        while i < self.loaded.len()
            invariant
                self.wf(),
                i <= self.loaded@.len(),
                forall|j: int| 0 <= j < i ==> self.loaded@[j].name@ != font_name@,
            decreases self.loaded@.len() - i,
        {
            if same_text(self.loaded[i].name.as_str(), font_name) {
                return Some(i);
            }
            i += 1;
        }
        proof {
            if self.loaded_names().contains(font_name@) {
                let j = choose|j: int| 0 <= j < self.loaded_names().len() && self.loaded_names()[j] == font_name@;
                assert(self.loaded@[j].name@ == font_name@);
            }
        }
        None
    }

    /// Hands over the bytes of `font_name`'s file. A font already parsed is
    /// kept and the bytes are ignored; otherwise they are parsed, and
    /// `ParseFailed` leaves the map as it was.
    pub fn add_font_data(&mut self, font_name: &str, data: Vec<u8>) -> (r: Result<(), FontError>)
        requires
            old(self).wf(),
        ensures
            final(self).wf(),
            r.is_ok() == (old(self).loaded_names().contains(font_name@) || font_parses(data@)),
            r.is_err() ==> r == Err::<(), FontError>(FontError::ParseFailed),
            final(self).loaded_names() == if r.is_ok() && !old(self).loaded_names().contains(font_name@) {
                old(self).loaded_names().push(font_name@)
            } else {
                old(self).loaded_names()
            },
            final(self).cache() == old(self).cache(),
            final(self).paths() == old(self).paths(),
            final(self).pending() == old(self).pending(),
    {
        match self.find_loaded(font_name) {
            Some(i) => {
                proof {
                    assert(old(self).loaded_names()[i as int] == font_name@);
                }
                return Ok(());
            },
            None => {},
        }
        match parse_font(data) {
            Some(font) => {
                self.loaded.push(LoadedFont { name: font_name.to_owned(), font });
                proof {
                    assert(self.loaded_names() =~= old(self).loaded_names().push(font_name@));
                    assert forall|i: int| 0 <= i < old(self).loaded@.len() implies
                        #[trigger] self.loaded@[i] == old(self).loaded@[i] by {}
                    assert forall|i: int| 0 <= i < old(self).loaded@.len() implies
                        self.loaded@[i].name@ != font_name@ by {
                        assert(old(self).loaded_names()[i] == old(self).loaded@[i].name@);
                    }
                    assert(self.ready == old(self).ready);
                    assert(self.paths == old(self).paths);
                    assert(self.cache_model == old(self).cache_model);
                    assert(self.path_model == old(self).path_model);
                    assert forall|i: int, j: int| 0 <= i < j < self.loaded@.len() implies
                        self.loaded@[i].name@ != self.loaded@[j].name@ by {
                        if j < old(self).loaded@.len() {
                            assert(old(self).loaded@[i].name@ != old(self).loaded@[j].name@);
                        }
                    }
                    assert forall|i: int| 0 <= i < self.ready@.len() implies
                        self.loaded@[#[trigger] self.ready@[i].font as int] == old(self).loaded@[self.ready@[i].font as int] by {
                        assert(old(self).cache_model@.contains_key(old(self).ready@[i].key()));
                    }
                }
                Ok(())
            },
            None => Err(FontError::ParseFailed),
        }
    }

    /// Serves one requirement whose font is parsed at index `font`.
    fn serve(&mut self, req: &Request, font: usize)
        requires
            old(self).wf(),
            font < old(self).loaded@.len(),
            old(self).loaded@[font as int].name@ == req.name@,
        ensures
            final(self).wf(),
            final(self).cache() == warm_cache(old(self).cache(), request_view(*req)),
            final(self).paths == old(self).paths,
            final(self).path_model == old(self).path_model,
            final(self).loaded == old(self).loaded,
            final(self).pending == old(self).pending,
    {
        let ghost k = (req.name@, req.size.bits);
        match self.find_ready(req.name.as_str(), req.size) {
            Some(i) => {
                let mut glyphs: Vec<char> = Vec::new();
                std::mem::swap(&mut glyphs, &mut self.ready[i].glyphs);
                warm_glyphs(&mut glyphs, req.text.as_str());
                std::mem::swap(&mut glyphs, &mut self.ready[i].glyphs);
                self.cache_model = Ghost(warm_cache(self.cache_model@, request_view(*req)));
                proof {
                    assert(self.ready@[i as int].key() == k);
                    assert forall|j: int| 0 <= j < self.ready@.len() && j != i implies
                        #[trigger] self.ready@[j] == old(self).ready@[j] by {}
                    assert forall|j: int| 0 <= j < self.ready@.len() && j != i implies
                        self.ready@[j].key() != k by {
                        if j < i {
                            assert(old(self).ready@[j].key() != old(self).ready@[i as int].key());
                        } else {
                            assert(old(self).ready@[i as int].key() != old(self).ready@[j].key());
                        }
                    }
                    assert forall|j: int| 0 <= j < self.ready@.len() implies {
                        &&& self.cache_model@.contains_key(#[trigger] self.ready@[j].key())
                        &&& self.cache_model@[self.ready@[j].key()] == self.ready@[j].warmed()
                        &&& self.ready@[j].font < self.loaded@.len()
                        &&& self.loaded@[self.ready@[j].font as int].name@ == self.ready@[j].name@
                    } by {
                        if j != i {
                            assert(old(self).cache_model@.contains_key(old(self).ready@[j].key()));
                        } else {
                            assert(old(self).cache_model@.contains_key(old(self).ready@[j].key()));
                            assert(self.ready@[j].font == old(self).ready@[j].font);
                            assert(self.ready@[j].warmed() == old(self).ready@[j].warmed().union(char_set(req.text@)));
                        }
                    }
                    assert forall|a: int, b: int| 0 <= a < b < self.ready@.len() implies
                        self.ready@[a].key() != self.ready@[b].key() by {
                        if a != i && b != i {
                            assert(old(self).ready@[a].key() != old(self).ready@[b].key());
                        }
                    }
                    assert forall|kk: CacheKey| #[trigger] self.cache_model@.contains_key(kk) implies exists|j: int|
                        0 <= j < self.ready@.len() && self.ready@[j].key() == kk by {
                        if kk != k {
                            let j = choose|j: int| 0 <= j < old(self).ready@.len() && old(self).ready@[j].key() == kk;
                            assert(self.ready@[j].key() == kk);
                        }
                    }
                    assert(self.paths == old(self).paths);
                    assert(self.loaded == old(self).loaded);
                    assert(self.wf());
                }
            },
            None => {
                let mut glyphs: Vec<char> = Vec::new();
                warm_glyphs(&mut glyphs, req.text.as_str());
                let n = self.ready.len();
                let inst = FontInstance { name: req.name.clone(), size: req.size, font, glyphs };
                self.ready.push(inst);
                self.cache_model = Ghost(warm_cache(self.cache_model@, request_view(*req)));
                proof {
                    assert(char_set(Seq::<char>::empty()) =~= Set::<char>::empty());
                    assert(self.ready@[n as int].key() == k);
                    assert forall|j: int| 0 <= j < n implies #[trigger] self.ready@[j] == old(self).ready@[j] by {}
                    assert forall|j: int| 0 <= j < n implies self.ready@[j].key() != k by {
                        assert(old(self).cache_model@.contains_key(old(self).ready@[j].key()));
                    }
                    assert forall|j: int| 0 <= j < self.ready@.len() implies {
                        &&& self.cache_model@.contains_key(#[trigger] self.ready@[j].key())
                        &&& self.cache_model@[self.ready@[j].key()] == self.ready@[j].warmed()
                        &&& self.ready@[j].font < self.loaded@.len()
                        &&& self.loaded@[self.ready@[j].font as int].name@ == self.ready@[j].name@
                    } by {
                        if j != n {
                            assert(old(self).cache_model@.contains_key(old(self).ready@[j].key()));
                        }
                    }
                    assert forall|a: int, b: int| 0 <= a < b < self.ready@.len() implies
                        self.ready@[a].key() != self.ready@[b].key() by {
                        if a != n && b != n {
                            assert(old(self).ready@[a].key() != old(self).ready@[b].key());
                        }
                    }
                    assert forall|kk: CacheKey| #[trigger] self.cache_model@.contains_key(kk) implies exists|j: int|
                        0 <= j < self.ready@.len() && self.ready@[j].key() == kk by {
                        if kk != k {
                            let j = choose|j: int| 0 <= j < old(self).ready@.len() && old(self).ready@[j].key() == kk;
                            assert(self.ready@[j].key() == kk);
                        }
                    }
                    assert(self.paths == old(self).paths);
                    assert(self.loaded == old(self).loaded);
                    assert(self.wf());
                }
            },
        }
    }
    /// Runs resolution as far as it goes without outside work. Each queued
    /// requirement whose font is parsed is served, in queue order; the rest
    /// stay queued. Then, if any remain, the file of the first one's font is
    /// asked for: at its recorded path, or else at the path that the system
    /// resolver gives, which is recorded. `NameUnresolved` where there is none.
    pub fn load_fonts(&mut self) -> (r: Result<LoadStep, FontError>)
        requires
            old(self).wf(),
        ensures
            final(self).wf(),
            final(self).cache() == apply_requests(
                old(self).cache(),
                old(self).pending().filter(servable(old(self).loaded_names())),
            ),
            final(self).pending() == old(self).pending().filter(unservable(old(self).loaded_names())),
            final(self).loaded_names() == old(self).loaded_names(),
            (r matches Ok(LoadStep::Done)) <==> final(self).pending().len() == 0,
            match r {
                Ok(LoadStep::Done) => final(self).paths() == old(self).paths(),
                Ok(LoadStep::NeedFile { name, path }) => {
                    &&& name@ == final(self).pending()[0].0
                    &&& final(self).paths().contains_key(name@)
                    &&& final(self).paths()[name@] == path@
                    &&& if old(self).paths().contains_key(name@) {
                        final(self).paths() == old(self).paths()
                    } else {
                        final(self).paths() == old(self).paths().insert(name@, path@)
                    }
                },
                Err(e) => {
                    &&& e == FontError::NameUnresolved
                    &&& final(self).pending().len() > 0
                    &&& !old(self).paths().contains_key(final(self).pending()[0].0)
                    &&& final(self).paths() == old(self).paths()
                },
            },
    {
        let mut queue: Vec<Request> = Vec::new();
        std::mem::swap(&mut queue, &mut self.pending);
        let ghost q = old(self).pending();
        let ghost names = old(self).loaded_names();
        proof {
            assert(self.ready == old(self).ready);
            assert(self.paths == old(self).paths);
            assert(self.loaded == old(self).loaded);
            assert(self.pending() =~= q.take(0).filter(unservable(names)));
            assert(q.take(0).filter(servable(names)) =~= Seq::<RequestView>::empty());
        }
        let mut i: usize = 0;
        while i < queue.len()
            invariant
                self.wf(),
                i <= queue@.len(),
                q == queue@.map_values(|r: Request| request_view(r)),
                names == self.loaded_names(),
                self.paths == old(self).paths,
                self.path_model == old(self).path_model,
                self.cache() == apply_requests(old(self).cache(), q.take(i as int).filter(servable(names))),
                self.pending() == q.take(i as int).filter(unservable(names)),
            decreases queue@.len() - i,
        {
            let req = &queue[i];
            let ghost x = q[i as int];
            let ghost t0 = q.take(i as int);
            let ghost t1 = q.take(i as int + 1);
            let ghost before = self.pending();
            proof {
                assert(t1 =~= t0.push(x));
                assert(t1.drop_last() =~= t0);
                assert(x == request_view(*req));
                assert(t1.len() > 0);
                assert(t1.last() == x);
                lemma_filter_push(t0, x, servable(names));
                lemma_filter_push(t0, x, unservable(names));
            }
            match self.find_loaded(req.name.as_str()) {
                Some(f) => {
                    proof {
                        assert(names[f as int] == req.name@);
                        assert(names.contains(x.0));
                        assert(servable(names)(x));
                        assert(!unservable(names)(x));
                        assert(t1.filter(servable(names)) == t0.filter(servable(names)).push(x));
                        assert(t1.filter(unservable(names)) == t0.filter(unservable(names)));
                    }
                    self.serve(req, f);
                    proof {
                        let ft0 = t0.filter(servable(names));
                        assert(ft0.push(x).drop_last() =~= ft0);
                        assert(self.pending() =~= before);
                    }
                },
                None => {
                    let copy = Request { name: req.name.clone(), size: req.size, text: req.text.clone() };
                    let ghost mid = *self;
                    self.pending.push(copy);
                    proof {
                        assert(self.ready == mid.ready);
                        assert(self.paths == mid.paths);
                        assert(self.loaded == mid.loaded);
                        assert(self.pending() =~= before.push(x));
                        assert(unservable(names)(x));
                        assert(!servable(names)(x));
                        assert(t1.filter(unservable(names)) == t0.filter(unservable(names)).push(x));
                        assert(t1.filter(servable(names)) == t0.filter(servable(names)));
                    }
                },
            }
            i += 1;
        }
        proof {
            assert(q.take(queue@.len() as int) =~= q);
        }
        if self.pending.len() == 0 {
            return Ok(LoadStep::Done);
        }
        let name = self.pending[0].name.clone();
        match self.find_path(name.as_str()) {
            Some(j) => {
                let path = self.paths[j].1.clone();
                Ok(LoadStep::NeedFile { name, path })
            },
            None => match find_font(name.as_str()) {
                Ok(p) => {
                    self.add_font_path(name.as_str(), p.clone());
                    Ok(LoadStep::NeedFile { name, path: p })
                },
                Err(e) => Err(e),
            },
        }
    }
    /// The parsed font of `font_name`, which every instance of that name
    /// renders from; `None` before its file has been handed over.
    pub fn parsed_font(&self, font_name: &str) -> (r: Option<&rusttype::Font<'static>>)
        requires
            self.wf(),
        ensures
            r.is_some() == self.loaded_names().contains(font_name@),
    {
        match self.find_loaded(font_name) {
            Some(i) => {
                proof {
                    assert(self.loaded_names()[i as int] == font_name@);
                }
                Some(&self.loaded[i].font)
            },
            None => None,
        }
    }
}

} // verus!
