//! The reference corpus index: every record of every loaded translation,
//! stacked in a fixed translation order, with explicit-reference detection,
//! direct lookup, browsing and keyword search over it.
//!
//! The index is read-only after construction except for the active
//! translation selector.  Its single most important invariant is index
//! parity with the companion embedding matrix: row `i` of the matrix
//! corresponds to record `i` of the stacked cache.  The matrix itself is
//! floating-point data held outside the library; the constructor records its
//! row count and refuses construction when it does not match the cache, so a
//! misalignment is prevented before any query runs.
//!
//! Semantic-similarity scores cross into the index as fixed-point values in
//! thousandths of cosine similarity, with the acceptance threshold at 450
//! thousandths.

use vstd::prelude::*;
use vstd::string::StringSliceAdditionalSpecFns;
use vstd::slice::slice_to_vec;
use vstd::utf8::encode_utf8;
use crate::text::{
    spec_lower,
    spec_eq_ci,
    spec_contains,
    bytes_eq,
    bytes_eq_ci,
    lower_bytes,
    contains_bytes,
};
use crate::detect::{spec_find_ref, spec_digits_val, find_ref, parse_locator};
use crate::text::{spec_trim, spec_trim_from, spec_trim_to, trim_from_index, trim_to_index};

verus! {

/// One corpus record: a verse of one translation.
#[derive(Debug)]
pub struct Verse {
    pub book: String,
    pub chapter: i32,
    pub verse: i32,
    pub text: String,
    pub version: String,
}

impl Clone for Verse {
    fn clone(&self) -> (r: Self)
        ensures
            r == *self,
    {
        Verse {
            book: self.book.clone(),
            chapter: self.chapter,
            verse: self.verse,
            text: self.text.clone(),
            version: self.version.clone(),
        }
    }
}

/// A record's locator is well formed when chapter and verse are positive.
pub open spec fn spec_verse_ok(v: Verse, version: Seq<char>) -> bool {
    &&& v.version@ == version
    &&& v.chapter >= 1
    &&& v.verse >= 1
}

/// Construction-time validity of the per-translation record groups.
pub open spec fn spec_group_ok(g: (String, Vec<Verse>)) -> bool {
    forall|k: int| 0 <= k < g.1@.len() ==> spec_verse_ok(#[trigger] g.1@[k], g.0@)
}

pub open spec fn spec_groups_ok(gs: Seq<(String, Vec<Verse>)>) -> bool {
    forall|i: int| 0 <= i < gs.len() ==> spec_group_ok(#[trigger] gs[i])
}

/// The stacked record sequence: all groups' records concatenated in group
/// order.
pub open spec fn spec_flatten(gs: Seq<(String, Vec<Verse>)>) -> Seq<Verse>
    decreases gs.len(),
{
    if gs.len() == 0 {
        Seq::empty()
    } else {
        spec_flatten(gs.drop_last()) + gs.last().1@
    }
}

/// Why the index could not be built.
#[derive(Clone, Copy, Debug, PartialEq, Eq, Structural)]
pub enum CorpusError {
    /// A record's translation tag does not match its group, or its locator
    /// is not positive.
    InvalidRecord,
    /// The caller's embedding matrix does not have one row per stacked
    /// record: the parity invariant would be broken, so construction fails.
    EmbeddingMismatch,
}

impl CorpusError {
    pub fn message(&self) -> (r: String)
        ensures
            *self is InvalidRecord ==> r@ == "corpus record does not match its translation group"@,
            *self is EmbeddingMismatch ==> r@
                == "embedding matrix rows do not match the stacked record count"@,
    {
        match self {
            CorpusError::InvalidRecord => "corpus record does not match its translation group"
                .to_owned(),
            CorpusError::EmbeddingMismatch =>
                "embedding matrix rows do not match the stacked record count".to_owned(),
        }
    }
}

/// The corpus index.
pub struct BibleStore {
    verse_cache: Vec<Verse>,
    version_offsets: Vec<usize>,
    version_lengths: Vec<usize>,
    versions: Vec<String>,
    active_version: String,
    semantic_rows: usize,
    book_aliases: Vec<(Vec<u8>, String)>,
}

impl BibleStore {
    /// Shape invariant: offsets and lengths partition the stacked cache into
    /// one contiguous slice per translation, every record carries its
    /// slice's translation tag and a positive locator, and the recorded
    /// matrix row count is either zero (no semantic search) or exactly the
    /// cache length (parity).
    pub closed spec fn wf(self) -> bool {
        &&& self.version_offsets@.len() == self.versions@.len()
        &&& self.version_lengths@.len() == self.versions@.len()
        &&& forall|i: int|
            0 <= i < self.versions@.len() ==> #[trigger] self.version_offsets@[i]
                + self.version_lengths@[i] <= self.verse_cache@.len()
        &&& forall|i: int|
            0 <= i && i + 1 < self.versions@.len() ==> #[trigger] self.version_offsets@[i + 1]
                == self.version_offsets@[i] + self.version_lengths@[i]
        &&& (self.versions@.len() > 0 ==> self.version_offsets@[0] == 0 && self.version_offsets@[
            self.versions@.len() - 1
        ] + self.version_lengths@[self.versions@.len() - 1] == self.verse_cache@.len())
        &&& (self.versions@.len() == 0 ==> self.verse_cache@.len() == 0)
        &&& forall|i: int, j: int|
            #![trigger self.version_offsets@[i], self.verse_cache@[j]]
            0 <= i < self.versions@.len() && self.version_offsets@[i] <= j
                < self.version_offsets@[i] + self.version_lengths@[i] ==> spec_verse_ok(
                self.verse_cache@[j],
                self.versions@[i]@,
            )
        &&& (self.semantic_rows == 0 || self.semantic_rows == self.verse_cache@.len())
    }

    pub closed spec fn spec_cache(self) -> Seq<Verse> {
        self.verse_cache@
    }

    pub closed spec fn spec_versions(self) -> Seq<String> {
        self.versions@
    }

    pub closed spec fn spec_active(self) -> Seq<char> {
        self.active_version@
    }

    pub closed spec fn spec_semantic_rows(self) -> usize {
        self.semantic_rows
    }

    pub closed spec fn spec_aliases(self) -> Seq<(Vec<u8>, String)> {
        self.book_aliases@
    }

    /// Builds the index from per-translation record groups given in the
    /// fixed stacking order, together with the row count of the companion
    /// embedding matrix (zero when no matrix was loaded: semantic search is
    /// then disabled rather than misaligned).
    pub fn new(groups: Vec<(String, Vec<Verse>)>, embedding_rows: usize) -> (r: Result<
        BibleStore,
        CorpusError,
    >)
        ensures
            !spec_groups_ok(groups@) ==> r == Result::<BibleStore, CorpusError>::Err(
                CorpusError::InvalidRecord,
            ),
            spec_groups_ok(groups@) && embedding_rows != 0 && embedding_rows != spec_flatten(
                groups@,
            ).len() ==> r == Result::<BibleStore, CorpusError>::Err(CorpusError::EmbeddingMismatch),
            spec_groups_ok(groups@) && (embedding_rows == 0 || embedding_rows == spec_flatten(
                groups@,
            ).len()) ==> (r matches Ok(store) && {
                &&& store.wf()
                &&& store.spec_cache() == spec_flatten(groups@)
                &&& store.spec_versions().len() == groups@.len()
                &&& forall|i: int|
                    0 <= i < groups@.len() ==> (#[trigger] store.spec_versions()[i])@ == (
                    groups@[i].0)@
                &&& store.spec_active() == if groups@.len() > 0 {
                    (groups@[0].0)@
                } else {
                    "KJV"@
                }
                &&& store.spec_semantic_rows() == embedding_rows
            }),
    {
        // Validate every group before building anything.
        let mut gi: usize = 0;
        while gi < groups.len()
            invariant
                gi <= groups@.len(),
                forall|i: int| 0 <= i < gi ==> spec_group_ok(#[trigger] groups@[i]),
            decreases groups@.len() - gi,
        {
            let name: &String = &groups[gi].0;
            let records: &Vec<Verse> = &groups[gi].1;
            let mut k: usize = 0;
            while k < records.len()
                invariant
                    k <= records@.len(),
                    name@ == (groups@[gi as int].0)@,
                    records@ == (groups@[gi as int].1)@,
                    gi < groups@.len(),
                    forall|m: int|
                        0 <= m < k ==> spec_verse_ok(#[trigger] records@[m], name@),
                decreases records@.len() - k,
            {
                let v = &records[k];
                if !(v.version == *name) || v.chapter < 1 || v.verse < 1 {
                    return Err(CorpusError::InvalidRecord);
                }
                k = k + 1;
            }
            proof {
                assert(spec_group_ok(groups@[gi as int]));
            }
            gi = gi + 1;
        }
        // Stack the records and record the partition.
        let mut verse_cache: Vec<Verse> = Vec::new();
        let mut version_offsets: Vec<usize> = Vec::new();
        let mut version_lengths: Vec<usize> = Vec::new();
        let mut versions: Vec<String> = Vec::new();
        let mut g: usize = 0;
        while g < groups.len()
            invariant
                g <= groups@.len(),
                spec_groups_ok(groups@),
                verse_cache@ == spec_flatten(groups@.take(g as int)),
                version_offsets@.len() == g,
                version_lengths@.len() == g,
                versions@.len() == g,
                forall|i: int|
                    0 <= i < g ==> #[trigger] version_offsets@[i] == spec_flatten(
                        groups@.take(i),
                    ).len(),
                forall|i: int|
                    0 <= i < g ==> #[trigger] version_lengths@[i] == (groups@[i].1)@.len(),
                forall|i: int| 0 <= i < g ==> #[trigger] versions@[i] == groups@[i].0,
            decreases groups@.len() - g,
        {
            proof {
                lemma_flatten_take_len(groups@, g as int);
            }
            version_offsets.push(verse_cache.len());
            versions.push(groups[g].0.clone());
            let records: &Vec<Verse> = &groups[g].1;
            version_lengths.push(records.len());
            let mut k: usize = 0;
            while k < records.len()
                invariant
                    k <= records@.len(),
                    g < groups@.len(),
                    records@ == (groups@[g as int].1)@,
                    verse_cache@ == spec_flatten(groups@.take(g as int)) + records@.take(k as int),
                decreases records@.len() - k,
            {
                verse_cache.push(records[k].clone());
                k = k + 1;
                proof {
                    assert(records@.take(k as int) =~= records@.take(k - 1) + seq![
                        records@[k - 1],
                    ]);
                    assert(verse_cache@ =~= spec_flatten(groups@.take(g as int)) + records@.take(
                        k as int,
                    ));
                }
            }
            g = g + 1;
            proof {
                assert(groups@.take(g as int).drop_last() =~= groups@.take(g - 1));
                assert(groups@.take(g as int).last() == groups@[g - 1]);
                assert(records@.take(records@.len() as int) =~= records@);
                assert(verse_cache@ =~= spec_flatten(groups@.take(g as int)));
            }
        }
        proof {
            assert(groups@.take(groups@.len() as int) =~= groups@);
        }
        if embedding_rows != 0 && embedding_rows != verse_cache.len() {
            return Err(CorpusError::EmbeddingMismatch);
        }
        let active_version: String = if groups.len() > 0 {
            groups[0].0.clone()
        } else {
            "KJV".to_owned()
        };
        let store = BibleStore {
            verse_cache,
            version_offsets,
            version_lengths,
            versions,
            active_version,
            semantic_rows: embedding_rows,
            book_aliases: book_alias_table(),
        };
        proof {
            lemma_store_wf_from_build(store, groups@);
        }
        Ok(store)
    }

    pub fn get_available_versions(&self) -> (r: Vec<String>)
        ensures
            r@.len() == self.spec_versions().len(),
            forall|i: int|
                0 <= i < r@.len() ==> (#[trigger] r@[i])@ == (self.spec_versions()[i])@,
    {
        let mut out: Vec<String> = Vec::new();
        let mut i: usize = 0;
        while i < self.versions.len()
            invariant
                i <= self.versions@.len(),
                out@.len() == i,
                forall|j: int|
                    0 <= j < i ==> (#[trigger] out@[j])@ == (self.versions@[j])@,
            decreases self.versions@.len() - i,
        {
            out.push(self.versions[i].clone());
            i = i + 1;
        }
        out
    }

    pub fn get_active_version(&self) -> (r: String)
        ensures
            r@ == self.spec_active(),
    {
        self.active_version.clone()
    }

    /// Selects the translation used for display lookups.  The selector is
    /// the only mutable part of the index.
    pub fn set_active_version(&mut self, version: &str)
        ensures
            final(self).spec_active() == version@,
            final(self).spec_cache() == old(self).spec_cache(),
            final(self).spec_versions() == old(self).spec_versions(),
            final(self).spec_semantic_rows() == old(self).spec_semantic_rows(),
            final(self).spec_aliases() == old(self).spec_aliases(),
            final(self).wf() == old(self).wf(),
    {
        self.active_version = version.to_owned();
    }
}

/// Length of the stacked prefix of the first `n` groups.
proof fn lemma_flatten_take_len(gs: Seq<(String, Vec<Verse>)>, n: int)
    requires
        0 <= n <= gs.len(),
    ensures
        spec_flatten(gs.take(n)).len() <= spec_flatten(gs).len(),
    decreases gs.len() - n,
{
    if n < gs.len() {
        lemma_flatten_take_len(gs, n + 1);
        assert(gs.take(n + 1).drop_last() =~= gs.take(n));
        assert(gs.take(n + 1).last() == gs[n]);
    } else {
        assert(gs.take(n) =~= gs);
    }
}

/// Every record of the stacked sequence comes from its group: record
/// `offset(i) + k` is record `k` of group `i`.
proof fn lemma_flatten_index(gs: Seq<(String, Vec<Verse>)>, i: int, k: int)
    requires
        0 <= i < gs.len(),
        0 <= k < (gs[i].1)@.len(),
    ensures
        spec_flatten(gs.take(i)).len() + k < spec_flatten(gs.take(i + 1)).len(),
        spec_flatten(gs.take(i + 1)).len() <= spec_flatten(gs).len(),
        spec_flatten(gs)[spec_flatten(gs.take(i)).len() + k] == (gs[i].1)@[k],
    decreases gs.len(),
{
    assert(gs.take(i + 1).drop_last() =~= gs.take(i));
    assert(gs.take(i + 1).last() == gs[i]);
    if i + 1 == gs.len() {
        assert(gs.take(i + 1) =~= gs);
        assert(spec_flatten(gs) == spec_flatten(gs.take(i)) + (gs[i].1)@);
    } else {
        lemma_flatten_index(gs.drop_last(), i, k);
        assert(gs.drop_last().take(i) =~= gs.take(i));
        assert(gs.drop_last().take(i + 1) =~= gs.take(i + 1));
        assert(spec_flatten(gs) == spec_flatten(gs.drop_last()) + (gs.last().1)@);
    }
}

/// After the build loops, the assembled store satisfies its invariant.
proof fn lemma_store_wf_from_build(store: BibleStore, gs: Seq<(String, Vec<Verse>)>)
    requires
        spec_groups_ok(gs),
        store.spec_cache() == spec_flatten(gs),
        store.spec_versions().len() == gs.len(),
        forall|i: int| 0 <= i < gs.len() ==> #[trigger] store.spec_versions()[i] == gs[i].0,
        store.spec_offsets().len() == gs.len(),
        store.spec_lengths().len() == gs.len(),
        forall|i: int|
            0 <= i < gs.len() ==> #[trigger] store.spec_offsets()[i] == spec_flatten(
                gs.take(i),
            ).len(),
        forall|i: int| 0 <= i < gs.len() ==> #[trigger] store.spec_lengths()[i] == (gs[i].1)@.len(),
        store.spec_semantic_rows() == 0 || store.spec_semantic_rows()
            == store.spec_cache().len(),
    ensures
        store.wf(),
{
    assert forall|i: int|
        0 <= i < store.spec_versions().len() implies #[trigger] store.spec_offsets()[i]
        + store.spec_lengths()[i] <= store.spec_cache().len() by {
        assert(0 <= i + 1 <= gs.len());
        assert(gs.take(i + 1).len() == i + 1);
        assert(gs.take(i + 1).drop_last() =~= gs.take(i));
        assert(gs.take(i + 1).last() == gs[i]);
        lemma_flatten_take_len(gs, i + 1);
    }
    assert forall|i: int|
        0 <= i && i + 1 < store.spec_versions().len() implies #[trigger] store.spec_offsets()[i
        + 1] == store.spec_offsets()[i] + store.spec_lengths()[i] by {
        assert(0 <= i + 1 <= gs.len());
        assert(gs.take(i + 1).len() == i + 1);
        assert(gs.take(i + 1).drop_last() =~= gs.take(i));
        assert(gs.take(i + 1).last() == gs[i]);
    }
    if store.spec_versions().len() > 0 {
        let last = store.spec_versions().len() - 1;
        assert(gs.take(0) =~= Seq::empty());
        assert(gs.take(last + 1).drop_last() =~= gs.take(last));
        assert(gs.take(last + 1).last() == gs[last]);
        assert(gs.take(last + 1) =~= gs);
    } else {
        assert(gs.take(0) =~= gs);
    }
    assert forall|i: int, j: int|
        #![trigger store.spec_offsets()[i], store.spec_cache()[j]]
        0 <= i < store.spec_versions().len() && store.spec_offsets()[i] <= j
            < store.spec_offsets()[i] + store.spec_lengths()[i] implies spec_verse_ok(
        store.spec_cache()[j],
        (store.spec_versions()[i])@,
    ) by {
        let k = j - spec_flatten(gs.take(i)).len();
        lemma_flatten_index(gs, i, k);
        assert(spec_group_ok(gs[i]));
        assert(spec_verse_ok((gs[i].1)@[k], (gs[i].0)@));
    }
}

impl BibleStore {
    pub(crate) closed spec fn spec_offsets(self) -> Seq<usize> {
        self.version_offsets@
    }

    pub(crate) closed spec fn spec_lengths(self) -> Seq<usize> {
        self.version_lengths@
    }
}

/// True when a cached record answers the queried locator: book names are
/// compared up to ASCII case (spoken and typed book names vary in casing),
/// chapter, verse and translation exactly.
pub open spec fn spec_verse_matches(v: Verse, book: Seq<u8>, chapter: i32, vnum: i32) -> bool {
    &&& spec_eq_ci(encode_utf8(v.book@), book)
    &&& v.chapter == chapter
    &&& v.verse == vnum
}

/// Index of the first record in `cache[lo..hi)` matching the locator.
pub open spec fn spec_find_in_range(
    cache: Seq<Verse>,
    lo: int,
    hi: int,
    book: Seq<u8>,
    chapter: i32,
    vnum: i32,
) -> Option<int>
    decreases hi - lo,
    when 0 <= lo && hi <= cache.len()
{
    if lo >= hi {
        None
    } else if spec_verse_matches(cache[lo], book, chapter, vnum) {
        Some(lo)
    } else {
        spec_find_in_range(cache, lo + 1, hi, book, chapter, vnum)
    }
}

/// Index of the first translation with the given tag, scanning from `i`.
pub open spec fn spec_first_version(vs: Seq<String>, name: Seq<char>, i: int) -> Option<int>
    decreases vs.len() - i,
    when 0 <= i <= vs.len()
{
    if i >= vs.len() {
        None
    } else if (vs[i])@ == name {
        Some(i)
    } else {
        spec_first_version(vs, name, i + 1)
    }
}

impl BibleStore {
    /// Index of the translation with the given tag in stacking order.
    pub closed spec fn spec_version_index(self, version: Seq<char>) -> Option<int> {
        spec_first_version(self.versions@, version, 0)
    }

    /// The cache index answering a direct lookup: the first record of the
    /// requested translation's slice that matches the locator.
    pub closed spec fn spec_lookup(
        self,
        book: Seq<u8>,
        chapter: i32,
        vnum: i32,
        version: Seq<char>,
    ) -> Option<int> {
        match self.spec_version_index(version) {
            None => None,
            Some(vi) => spec_find_in_range(
                self.verse_cache@,
                self.version_offsets@[vi] as int,
                self.version_offsets@[vi] + self.version_lengths@[vi],
                book,
                chapter,
                vnum,
            ),
        }
    }

    fn version_index(&self, version: &str) -> (r: Option<usize>)
        ensures
            (r is Some) == (self.spec_version_index(version@) is Some),
            r matches Some(vi) ==> self.spec_version_index(version@) == Some(vi as int) && vi
                < self.spec_versions().len(),
    {
        let wanted: String = version.to_owned();
        let mut i: usize = 0;
        while i < self.versions.len()
            invariant
                i <= self.versions@.len(),
                wanted@ == version@,
                spec_first_version(self.versions@, version@, 0) == spec_first_version(
                    self.versions@,
                    version@,
                    i as int,
                ),
            decreases self.versions@.len() - i,
        {
            if self.versions[i] == wanted {
                proof {
                    assert(spec_first_version(self.versions@, version@, i as int) == Some(
                        i as int,
                    ));
                }
                return Some(i);
            }
            i = i + 1;
        }
        proof {
            assert(spec_first_version(self.versions@, version@, i as int) is None);
        }
        None
    }

    /// Direct indexed fetch of one record by book, chapter, verse and
    /// translation.  Returns the first matching record of that translation's
    /// slice, or nothing when the translation is unknown or holds no such
    /// locator.
    pub fn get_verse(&self, book: &str, chapter: i32, verse: i32, version: &str) -> (r: Option<
        Verse,
    >)
        requires
            self.wf(),
        ensures
            match self.spec_lookup(book.spec_bytes(), chapter, verse, version@) {
                Some(j) => (r matches Some(v) && 0 <= j < self.spec_cache().len() && v
                    == self.spec_cache()[j]),
                None => r is None,
            },
    {
        self.find_verse_bytes(book.as_bytes(), chapter, verse, version)
    }

    /// Lookup with the book name already in byte form (as produced by the
    /// reference parser).
    fn find_verse_bytes(&self, book: &[u8], chapter: i32, verse: i32, version: &str) -> (r: Option<
        Verse,
    >)
        requires
            self.wf(),
        ensures
            match self.spec_lookup(book@, chapter, verse, version@) {
                Some(j) => (r matches Some(v) && 0 <= j < self.spec_cache().len() && v
                    == self.spec_cache()[j]),
                None => r is None,
            },
    {
        let vi = match self.version_index(version) {
            Some(vi) => vi,
            None => {
                return None;
            },
        };
        proof {
            lemma_first_version_in_range(self.versions@, version@, 0);
            assert(self.version_offsets@[vi as int] + self.version_lengths@[vi as int]
                <= self.verse_cache@.len());
        }
        // Bind the cache length to a machine word: the slice-bound arithmetic
        // below must not overflow.
        let _cache_len: usize = self.verse_cache.len();
        let lo: usize = self.version_offsets[vi];
        let hi: usize = lo + self.version_lengths[vi];
        let mut j: usize = lo;
        while j < hi
            invariant
                self.wf(),
                vi < self.versions@.len(),
                self.spec_version_index(version@) == Some(vi as int),
                lo == self.version_offsets@[vi as int],
                hi == self.version_offsets@[vi as int] + self.version_lengths@[vi as int],
                lo <= j <= hi,
                hi <= self.verse_cache@.len(),
                spec_find_in_range(
                    self.verse_cache@,
                    lo as int,
                    hi as int,
                    book@,
                    chapter,
                    verse,
                ) == spec_find_in_range(
                    self.verse_cache@,
                    j as int,
                    hi as int,
                    book@,
                    chapter,
                    verse,
                ),
            decreases hi - j,
        {
            let v = &self.verse_cache[j];
            if bytes_eq_ci(v.book.as_str().as_bytes(), book) && v.chapter == chapter && v.verse == verse {
                proof {
                    assert(spec_verse_matches(self.verse_cache@[j as int], book@, chapter, verse));
                    assert(spec_find_in_range(
                        self.verse_cache@,
                        j as int,
                        hi as int,
                        book@,
                        chapter,
                        verse,
                    ) == Some(j as int));
                }
                return Some(v.clone());
            }
            proof {
                assert(!spec_verse_matches(self.verse_cache@[j as int], book@, chapter, verse));
            }
            j = j + 1;
        }
        proof {
            assert(spec_find_in_range(self.verse_cache@, j as int, hi as int, book@, chapter, verse)
                is None);
        }
        None
    }
}

/// A found translation index lies within the translation list.
proof fn lemma_first_version_in_range(vs: Seq<String>, name: Seq<char>, i: int)
    requires
        0 <= i <= vs.len(),
    ensures
        match spec_first_version(vs, name, i) {
            Some(vi) => i <= vi < vs.len(),
            None => true,
        },
    decreases vs.len() - i,
{
    if i < vs.len() && !((vs[i])@ == name) {
        lemma_first_version_in_range(vs, name, i + 1);
    }
}

/// Cosine-similarity acceptance threshold in thousandths: a best match
/// scoring below this is reported as "no match" rather than a weak guess.
pub const SEMANTIC_THRESHOLD_MILLI: i64 = 450;

/// Confidence of a certain match (explicit reference or manual selection),
/// in thousandths.
pub const CONFIDENCE_FULL_MILLI: u32 = 1000;

/// The best row of the companion embedding matrix for one query embedding,
/// as computed outside the library: the row index of the highest dot
/// product, and that score in thousandths of cosine similarity.
#[derive(Clone, Copy, Debug, PartialEq, Eq, Structural)]
pub struct SemanticCandidate {
    pub row: usize,
    pub score_milli: i64,
}

/// How a detection result was found.
#[derive(Clone, Copy, Debug, PartialEq, Eq, Structural)]
pub enum DetectionSource {
    ExplicitReference,
    Semantic,
    NoMatch,
}

impl DetectionSource {
    /// The source tag under which results are published.
    pub fn tag(&self) -> (r: String)
        ensures
            *self is ExplicitReference ==> r@ == "explicit-reference"@,
            *self is Semantic ==> r@ == "semantic"@,
            *self is NoMatch ==> r@ == "none"@,
    {
        match self {
            DetectionSource::ExplicitReference => "explicit-reference".to_owned(),
            DetectionSource::Semantic => "semantic".to_owned(),
            DetectionSource::NoMatch => "none".to_owned(),
        }
    }
}

/// Outcome of hybrid detection: the matched record if any, a confidence in
/// thousandths (zero to one thousand), and the source tag.
#[derive(Debug)]
pub struct DetectionResult {
    pub verse: Option<Verse>,
    pub confidence_milli: u32,
    pub source: DetectionSource,
}

impl Clone for DetectionResult {
    fn clone(&self) -> (r: Self)
        ensures
            r == *self,
    {
        DetectionResult {
            verse: match &self.verse {
                Some(v) => Some(v.clone()),
                None => None,
            },
            confidence_milli: self.confidence_milli,
            source: self.source,
        }
    }
}

/// First alias entry whose key equals `key`, scanning from `i`.
pub open spec fn spec_alias_from(aliases: Seq<(Vec<u8>, String)>, key: Seq<u8>, i: int) -> Option<
    Seq<char>,
>
    decreases aliases.len() - i,
    when 0 <= i <= aliases.len()
{
    if i >= aliases.len() {
        None
    } else if (aliases[i].0)@ == key {
        Some((aliases[i].1)@)
    } else {
        spec_alias_from(aliases, key, i + 1)
    }
}

/// The normalised book token: the canonical name when the trimmed,
/// lower-cased token stands in the alias table, the raw token unchanged
/// otherwise.
pub open spec fn spec_normalized_book(aliases: Seq<(Vec<u8>, String)>, token: Seq<u8>) -> Seq<u8> {
    match spec_alias_from(aliases, spec_lower(spec_trim(token)), 0) {
        Some(name) => encode_utf8(name),
        None => token,
    }
}

impl BibleStore {
    /// Maps a raw book token (abbreviation or misspelling) to its canonical
    /// book name through the alias table; an unknown token passes through
    /// unchanged.
    fn normalize_book(&self, token: &[u8]) -> (r: Vec<u8>)
        ensures
            r@ == spec_normalized_book(self.spec_aliases(), token@),
    {
        let from = trim_from_index(token);
        let to = trim_to_index(token);
        let trimmed: &[u8] = if from <= to {
            vstd::slice::slice_subrange(token, from, to)
        } else {
            vstd::slice::slice_subrange(token, 0, 0)
        };
        proof {
            if !(spec_trim_from(token@, 0) <= spec_trim_to(token@, token@.len() as int)) {
                assert(token@.subrange(0, 0) =~= Seq::<u8>::empty());
            }
            assert(trimmed@ == spec_trim(token@));
        }
        let key = lower_bytes(trimmed);
        let mut i: usize = 0;
        while i < self.book_aliases.len()
            invariant
                i <= self.book_aliases@.len(),
                key@ == spec_lower(spec_trim(token@)),
                spec_alias_from(self.book_aliases@, key@, 0) == spec_alias_from(
                    self.book_aliases@,
                    key@,
                    i as int,
                ),
            decreases self.book_aliases@.len() - i,
        {
            if bytes_eq(self.book_aliases[i].0.as_slice(), key.as_slice()) {
                proof {
                    assert(spec_alias_from(self.book_aliases@, key@, i as int) == Some(
                        (self.book_aliases@[i as int].1)@,
                    ));
                }
                return slice_to_vec(self.book_aliases[i].1.as_str().as_bytes());
            }
            i = i + 1;
        }
        proof {
            assert(spec_alias_from(self.book_aliases@, key@, i as int) is None);
        }
        slice_to_vec(token)
    }

    /// The active-translation record named by the leftmost explicit
    /// reference of the text: its book token normalised through the alias
    /// table, its chapter and verse numbers parsed as 32-bit values (an
    /// overflowing number fails the whole detection, as the source parse
    /// would), looked up in the active translation.
    pub closed spec fn spec_detect_ref(self, text: Seq<u8>) -> Option<int> {
        match spec_find_ref(text) {
            None => None,
            Some(m) => {
                let book = spec_normalized_book(
                    self.book_aliases@,
                    text.subrange(m.book_start, m.book_end),
                );
                let chv = spec_digits_val(text, m.chapter_start, m.chapter_end);
                let vsv = spec_digits_val(text, m.verse_start, m.verse_end);
                if chv > i32::MAX || vsv > i32::MAX {
                    None
                } else {
                    self.spec_lookup(book, chv as i32, vsv as i32, self.active_version@)
                }
            },
        }
    }

    /// Explicit-reference detection: finds the leftmost well-formed
    /// reference in the text and fetches its record from the active
    /// translation.  Malformed text is not an error — it simply finds
    /// nothing.
    pub fn detect_verse_by_ref(&self, text: &str) -> (r: Option<Verse>)
        requires
            self.wf(),
        ensures
            match self.spec_detect_ref(text.spec_bytes()) {
                Some(j) => (r matches Some(v) && 0 <= j < self.spec_cache().len() && v
                    == self.spec_cache()[j]),
                None => r is None,
            },
    {
        let bytes = text.as_bytes();
        let span = match find_ref(bytes) {
            None => {
                return None;
            },
            Some(s) => s,
        };
        let token = vstd::slice::slice_subrange(bytes, span.book_start, span.book_end);
        let book = self.normalize_book(token);
        let chapter = match parse_locator(bytes, span.chapter_start, span.chapter_end) {
            None => {
                return None;
            },
            Some(c) => c,
        };
        let verse = match parse_locator(bytes, span.verse_start, span.verse_end) {
            None => {
                return None;
            },
            Some(v) => v,
        };
        let active = self.active_version.clone();
        self.find_verse_bytes(book.as_slice(), chapter, verse, active.as_str())
    }

    /// The record index a semantic row resolves to: the matched row's
    /// locator re-fetched from the active translation, falling back to the
    /// matched row itself when the active translation lacks that locator.
    pub closed spec fn spec_resolve_semantic(self, row: int) -> int {
        let matched = self.verse_cache@[row];
        match self.spec_lookup(
            encode_utf8(matched.book@),
            matched.chapter,
            matched.verse,
            self.active_version@,
        ) {
            Some(j) => j,
            None => row,
        }
    }

    /// The full hybrid decision as a value: explicit reference first (it
    /// always wins, with full confidence); otherwise the semantic candidate
    /// when one was supplied, lies within the matrix, and reaches the
    /// acceptance threshold; otherwise no match.
    pub closed spec fn spec_hybrid(
        self,
        text: Seq<u8>,
        semantic: Option<SemanticCandidate>,
    ) -> DetectionResult {
        match self.spec_detect_ref(text) {
            Some(j) => DetectionResult {
                verse: Some(self.verse_cache@[j]),
                confidence_milli: CONFIDENCE_FULL_MILLI,
                source: DetectionSource::ExplicitReference,
            },
            None => match semantic {
                Some(c) => {
                    if c.row < self.semantic_rows && c.score_milli >= SEMANTIC_THRESHOLD_MILLI {
                        DetectionResult {
                            verse: Some(self.verse_cache@[self.spec_resolve_semantic(c.row as int)]),
                            confidence_milli: if c.score_milli >= CONFIDENCE_FULL_MILLI as i64 {
                                CONFIDENCE_FULL_MILLI
                            } else {
                                c.score_milli as u32
                            },
                            source: DetectionSource::Semantic,
                        }
                    } else {
                        DetectionResult {
                            verse: None,
                            confidence_milli: 0,
                            source: DetectionSource::NoMatch,
                        }
                    }
                },
                None => DetectionResult {
                    verse: None,
                    confidence_milli: 0,
                    source: DetectionSource::NoMatch,
                },
            },
        }
    }

    /// Hybrid detection.  Explicit-reference detection runs first and, when
    /// it resolves, always wins with confidence one thousand.  Otherwise the
    /// caller's semantic candidate (the best matrix row for the query
    /// embedding) is accepted only at or above the 450-thousandths
    /// threshold, and its locator is re-resolved against the active
    /// translation, falling back to the matched record itself.
    pub fn detect_verse_hybrid(&self, text: &str, semantic: Option<SemanticCandidate>) -> (r:
        DetectionResult)
        requires
            self.wf(),
        ensures
            r == self.spec_hybrid(text.spec_bytes(), semantic),
    {
        if let Some(v) = self.detect_verse_by_ref(text) {
            return DetectionResult {
                verse: Some(v),
                confidence_milli: CONFIDENCE_FULL_MILLI,
                source: DetectionSource::ExplicitReference,
            };
        }
        if let Some(c) = semantic {
            if c.row < self.semantic_rows && c.score_milli >= SEMANTIC_THRESHOLD_MILLI {
                let matched = &self.verse_cache[c.row];
                let active = self.active_version.clone();
                let resolved = self.find_verse_bytes(
                    matched.book.as_str().as_bytes(),
                    matched.chapter,
                    matched.verse,
                    active.as_str(),
                );
                let confidence: u32 = if c.score_milli >= CONFIDENCE_FULL_MILLI as i64 {
                    CONFIDENCE_FULL_MILLI
                } else {
                    c.score_milli as u32
                };
                let verse = match resolved {
                    Some(v) => v,
                    None => matched.clone(),
                };
                return DetectionResult {
                    verse: Some(verse),
                    confidence_milli: confidence,
                    source: DetectionSource::Semantic,
                };
            }
        }
        DetectionResult { verse: None, confidence_milli: 0, source: DetectionSource::NoMatch }
    }
}

/// Minimum verse number among records of `cache[lo..j)` matching the book
/// (up to ASCII case) and chapter.
pub open spec fn spec_min_verse(cache: Seq<Verse>, lo: int, j: int, book: Seq<u8>, chapter: i32) -> Option<i32>
    decreases j - lo,
    when 0 <= lo <= j <= cache.len()
{
    if j <= lo {
        None
    } else {
        let prev = spec_min_verse(cache, lo, j - 1, book, chapter);
        let v = cache[j - 1];
        if spec_eq_ci(encode_utf8(v.book@), book) && v.chapter == chapter {
            match prev {
                None => Some(v.verse),
                Some(m) => if v.verse < m {
                    Some(v.verse)
                } else {
                    Some(m)
                },
            }
        } else {
            prev
        }
    }
}

/// Book names of `cache[lo..j)` in first-occurrence order, without
/// duplicates.
pub open spec fn spec_books_prefix(cache: Seq<Verse>, lo: int, j: int) -> Seq<Seq<char>>
    decreases j - lo,
    when 0 <= lo <= j <= cache.len()
{
    if j <= lo {
        Seq::empty()
    } else {
        let prev = spec_books_prefix(cache, lo, j - 1);
        if prev.contains(cache[j - 1].book@) {
            prev
        } else {
            prev.push(cache[j - 1].book@)
        }
    }
}

/// Inserts `x` into `s` before the first element not smaller than it;
/// when that element equals `x` the sequence is unchanged.  On a sorted,
/// duplicate-free sequence this keeps it sorted and duplicate-free.
pub open spec fn spec_insert_sorted(s: Seq<i32>, x: i32) -> Seq<i32>
    decreases s.len(),
{
    if s.len() == 0 {
        seq![x]
    } else if x < s[0] {
        seq![x] + s
    } else if x == s[0] {
        s
    } else {
        seq![s[0]] + spec_insert_sorted(s.drop_first(), x)
    }
}

/// Chapter numbers of the book's records in `cache[lo..j)`, collected in
/// ascending order without duplicates.
pub open spec fn spec_chapters_prefix(cache: Seq<Verse>, lo: int, j: int, book: Seq<u8>) -> Seq<
    i32,
>
    decreases j - lo,
    when 0 <= lo <= j <= cache.len()
{
    if j <= lo {
        Seq::empty()
    } else {
        let prev = spec_chapters_prefix(cache, lo, j - 1, book);
        let v = cache[j - 1];
        if spec_eq_ci(encode_utf8(v.book@), book) {
            spec_insert_sorted(prev, v.chapter)
        } else {
            prev
        }
    }
}

/// Verse numbers of the book's chapter in `cache[lo..j)`, collected in
/// ascending order without duplicates.
pub open spec fn spec_verses_prefix(
    cache: Seq<Verse>,
    lo: int,
    j: int,
    book: Seq<u8>,
    chapter: i32,
) -> Seq<i32>
    decreases j - lo,
    when 0 <= lo <= j <= cache.len()
{
    if j <= lo {
        Seq::empty()
    } else {
        let prev = spec_verses_prefix(cache, lo, j - 1, book, chapter);
        let v = cache[j - 1];
        if spec_eq_ci(encode_utf8(v.book@), book) && v.chapter == chapter {
            spec_insert_sorted(prev, v.verse)
        } else {
            prev
        }
    }
}

/// Inserting grows the sequence by at most one element.
proof fn lemma_insert_sorted_len(s: Seq<i32>, x: i32)
    ensures
        s.len() <= spec_insert_sorted(s, x).len() <= s.len() + 1,
    decreases s.len(),
{
    if s.len() == 0 {
    } else if x < s[0] {
    } else if x == s[0] {
    } else {
        lemma_insert_sorted_len(s.drop_first(), x);
    }
}

/// `spec_insert_sorted` inserts at the first position whose element is not
/// smaller than `x` (or leaves the sequence alone on an exact duplicate
/// there).
proof fn lemma_insert_sorted_at(s: Seq<i32>, x: i32, p: int)
    requires
        0 <= p <= s.len(),
        forall|k: int| 0 <= k < p ==> s[k] < x,
        p < s.len() ==> s[p] >= x,
    ensures
        spec_insert_sorted(s, x) == if p < s.len() && s[p] == x {
            s
        } else {
            s.insert(p, x)
        },
    decreases s.len(),
{
    if s.len() == 0 {
        assert(spec_insert_sorted(s, x) =~= s.insert(0, x));
    } else if p == 0 {
        if s[0] == x {
        } else {
            assert(x < s[0]);
            assert(seq![x] + s =~= s.insert(0, x));
        }
    } else {
        assert(s[0] < x);
        lemma_insert_sorted_at(s.drop_first(), x, p - 1);
        if p < s.len() && s[p] == x {
            assert(s.drop_first()[p - 1] == s[p]);
            assert(seq![s[0]] + s.drop_first() =~= s);
        } else {
            assert(seq![s[0]] + s.drop_first().insert(p - 1, x) =~= s.insert(p, x));
        }
    }
}

impl BibleStore {
    /// The record after the given locator in reading order: the next verse
    /// of the same chapter if the translation has it, else the first
    /// (lowest-numbered) verse of the next chapter.
    pub closed spec fn spec_next_verse(
        self,
        book: Seq<u8>,
        chapter: i32,
        vnum: i32,
        version: Seq<char>,
    ) -> Option<int>
        recommends
            chapter < i32::MAX,
            vnum < i32::MAX,
    {
        match self.spec_lookup(book, chapter, (vnum + 1) as i32, version) {
            Some(j) => Some(j),
            None => match self.spec_version_index(version) {
                None => None,
                Some(vi) => {
                    let lo = self.version_offsets@[vi] as int;
                    let hi = self.version_offsets@[vi] + self.version_lengths@[vi];
                    match spec_min_verse(self.verse_cache@, lo, hi, book, (chapter + 1) as i32) {
                        None => None,
                        Some(fv) => self.spec_lookup(book, (chapter + 1) as i32, fv, version),
                    }
                },
            },
        }
    }

    /// Fetches the record that follows the given locator, crossing into the
    /// next chapter when the current one ends.
    pub fn get_next_verse(&self, book: &str, chapter: i32, verse: i32, version: &str) -> (r: Option<
        Verse,
    >)
        requires
            self.wf(),
            chapter < i32::MAX,
            verse < i32::MAX,
        ensures
            match self.spec_next_verse(book.spec_bytes(), chapter, verse, version@) {
                Some(j) => (r matches Some(v) && 0 <= j < self.spec_cache().len() && v
                    == self.spec_cache()[j]),
                None => r is None,
            },
    {
        if let Some(v) = self.get_verse(book, chapter, verse + 1, version) {
            return Some(v);
        }
        let vi = match self.version_index(version) {
            Some(vi) => vi,
            None => {
                return None;
            },
        };
        // Bind the cache length to a machine word: the slice-bound arithmetic
        // below must not overflow.
        let _cache_len: usize = self.verse_cache.len();
        let lo: usize = self.version_offsets[vi];
        let hi: usize = lo + self.version_lengths[vi];
        let book_bytes = book.as_bytes();
        let next_chapter = chapter + 1;
        let mut first_verse: Option<i32> = None;
        let mut j: usize = lo;
        while j < hi
            invariant
                self.wf(),
                vi < self.versions@.len(),
                lo == self.version_offsets@[vi as int],
                hi == self.version_offsets@[vi as int] + self.version_lengths@[vi as int],
                lo <= j <= hi,
                hi <= self.verse_cache@.len(),
                book_bytes@ == book.spec_bytes(),
                first_verse == spec_min_verse(
                    self.verse_cache@,
                    lo as int,
                    j as int,
                    book_bytes@,
                    next_chapter,
                ),
            decreases hi - j,
        {
            let v = &self.verse_cache[j];
            if bytes_eq_ci(v.book.as_str().as_bytes(), book_bytes) && v.chapter == next_chapter {
                first_verse = match first_verse {
                    None => Some(v.verse),
                    Some(m) => if v.verse < m {
                        Some(v.verse)
                    } else {
                        Some(m)
                    },
                };
            }
            j = j + 1;
        }
        match first_verse {
            None => None,
            Some(fv) => self.get_verse(book, next_chapter, fv, version),
        }
    }

    /// Distinct book names of one translation, in first-occurrence order.
    pub closed spec fn spec_books(self, version: Seq<char>) -> Seq<Seq<char>> {
        match self.spec_version_index(version) {
            None => Seq::empty(),
            Some(vi) => spec_books_prefix(
                self.verse_cache@,
                self.version_offsets@[vi] as int,
                self.version_offsets@[vi] + self.version_lengths@[vi],
            ),
        }
    }

    /// Lists the translation's books for browsing; an unknown translation
    /// has none.
    pub fn get_books(&self, version: &str) -> (r: Vec<String>)
        requires
            self.wf(),
        ensures
            r@.len() == self.spec_books(version@).len(),
            forall|k: int|
                0 <= k < r@.len() ==> (#[trigger] r@[k])@ == self.spec_books(version@)[k],
    {
        let vi = match self.version_index(version) {
            Some(vi) => vi,
            None => {
                return Vec::new();
            },
        };
        // Bind the cache length to a machine word: the slice-bound arithmetic
        // below must not overflow.
        let _cache_len: usize = self.verse_cache.len();
        let lo: usize = self.version_offsets[vi];
        let hi: usize = lo + self.version_lengths[vi];
        let mut out: Vec<String> = Vec::new();
        let mut j: usize = lo;
        while j < hi
            invariant
                self.wf(),
                vi < self.versions@.len(),
                lo == self.version_offsets@[vi as int],
                hi == self.version_offsets@[vi as int] + self.version_lengths@[vi as int],
                lo <= j <= hi,
                hi <= self.verse_cache@.len(),
                out@.len() == spec_books_prefix(self.verse_cache@, lo as int, j as int).len(),
                forall|k: int|
                    0 <= k < out@.len() ==> (#[trigger] out@[k])@ == spec_books_prefix(
                        self.verse_cache@,
                        lo as int,
                        j as int,
                    )[k],
            decreases hi - j,
        {
            let v = &self.verse_cache[j];
            let ghost prev = spec_books_prefix(self.verse_cache@, lo as int, j as int);
            let mut seen = false;
            let mut k: usize = 0;
            while k < out.len()
                invariant
                    k <= out@.len(),
                    out@.len() == prev.len(),
                    forall|m: int| 0 <= m < out@.len() ==> (#[trigger] out@[m])@ == prev[m],
                    v == &self.verse_cache@[j as int],
                    j < self.verse_cache@.len(),
                    seen ==> prev.contains(self.verse_cache@[j as int].book@),
                    !seen ==> forall|m: int|
                        0 <= m < k ==> prev[m] != self.verse_cache@[j as int].book@,
                decreases out@.len() - k,
            {
                if out[k] == v.book {
                    seen = true;
                    k = out.len();
                } else {
                    k = k + 1;
                }
            }
            proof {
                if !seen {
                    assert(forall|m: int|
                        0 <= m < prev.len() ==> prev[m] != self.verse_cache@[j as int].book@);
                    assert(!prev.contains(self.verse_cache@[j as int].book@));
                }
            }
            if !seen {
                out.push(v.book.clone());
            }
            j = j + 1;
        }
        out
    }

    /// Ascending distinct chapter numbers of one book in one translation.
    pub closed spec fn spec_chapters(self, book: Seq<u8>, version: Seq<char>) -> Seq<i32> {
        match self.spec_version_index(version) {
            None => Seq::empty(),
            Some(vi) => spec_chapters_prefix(
                self.verse_cache@,
                self.version_offsets@[vi] as int,
                self.version_offsets@[vi] + self.version_lengths@[vi],
                book,
            ),
        }
    }

    /// Lists a book's chapter numbers in ascending order for browsing.
    pub fn get_chapters(&self, book: &str, version: &str) -> (r: Vec<i32>)
        requires
            self.wf(),
        ensures
            r@ == self.spec_chapters(book.spec_bytes(), version@),
    {
        let vi = match self.version_index(version) {
            Some(vi) => vi,
            None => {
                return Vec::new();
            },
        };
        let cache_len: usize = self.verse_cache.len();
        let lo: usize = self.version_offsets[vi];
        let hi: usize = lo + self.version_lengths[vi];
        let book_bytes = book.as_bytes();
        let mut out: Vec<i32> = Vec::new();
        let mut j: usize = lo;
        while j < hi
            invariant
                self.wf(),
                vi < self.versions@.len(),
                lo == self.version_offsets@[vi as int],
                hi == self.version_offsets@[vi as int] + self.version_lengths@[vi as int],
                lo <= j <= hi,
                hi <= self.verse_cache@.len(),
                book_bytes@ == book.spec_bytes(),
                hi <= cache_len,
                out@.len() <= j - lo,
                out@ == spec_chapters_prefix(self.verse_cache@, lo as int, j as int, book_bytes@),
            decreases hi - j,
        {
            let v = &self.verse_cache[j];
            if bytes_eq_ci(v.book.as_str().as_bytes(), book_bytes) {
                proof {
                    lemma_insert_sorted_len(out@, self.verse_cache@[j as int].chapter);
                }
                insert_sorted(&mut out, v.chapter);
            }
            j = j + 1;
        }
        out
    }

    /// Ascending distinct verse numbers of one chapter in one translation.
    pub closed spec fn spec_verses_of_chapter(
        self,
        book: Seq<u8>,
        chapter: i32,
        version: Seq<char>,
    ) -> Seq<i32> {
        match self.spec_version_index(version) {
            None => Seq::empty(),
            Some(vi) => spec_verses_prefix(
                self.verse_cache@,
                self.version_offsets@[vi] as int,
                self.version_offsets@[vi] + self.version_lengths@[vi],
                book,
                chapter,
            ),
        }
    }

    /// Lists a chapter's verse numbers in ascending order for browsing.
    pub fn get_verses_count(&self, book: &str, chapter: i32, version: &str) -> (r: Vec<i32>)
        requires
            self.wf(),
        ensures
            r@ == self.spec_verses_of_chapter(book.spec_bytes(), chapter, version@),
    {
        let vi = match self.version_index(version) {
            Some(vi) => vi,
            None => {
                return Vec::new();
            },
        };
        let cache_len: usize = self.verse_cache.len();
        let lo: usize = self.version_offsets[vi];
        let hi: usize = lo + self.version_lengths[vi];
        let book_bytes = book.as_bytes();
        let mut out: Vec<i32> = Vec::new();
        let mut j: usize = lo;
        while j < hi
            invariant
                self.wf(),
                vi < self.versions@.len(),
                lo == self.version_offsets@[vi as int],
                hi == self.version_offsets@[vi as int] + self.version_lengths@[vi as int],
                lo <= j <= hi,
                hi <= self.verse_cache@.len(),
                book_bytes@ == book.spec_bytes(),
                hi <= cache_len,
                out@.len() <= j - lo,
                out@ == spec_verses_prefix(
                    self.verse_cache@,
                    lo as int,
                    j as int,
                    book_bytes@,
                    chapter,
                ),
            decreases hi - j,
        {
            let v = &self.verse_cache[j];
            if bytes_eq_ci(v.book.as_str().as_bytes(), book_bytes) && v.chapter == chapter {
                proof {
                    lemma_insert_sorted_len(out@, self.verse_cache@[j as int].verse);
                }
                insert_sorted(&mut out, v.verse);
            }
            j = j + 1;
        }
        out
    }
}

/// Inserts a number into an ascending duplicate-free vector, keeping it so.
fn insert_sorted(v: &mut Vec<i32>, x: i32)
    requires
        old(v)@.len() < usize::MAX,
    ensures
        final(v)@ == spec_insert_sorted(old(v)@, x),
{
    let mut p: usize = 0;
    while p < v.len() && v[p] < x
        invariant
            p <= v@.len(),
            forall|k: int| 0 <= k < p ==> v@[k] < x,
            v@ == old(v)@,
        decreases v@.len() - p,
    {
        p = p + 1;
    }
    proof {
        lemma_insert_sorted_at(v@, x, p as int);
    }
    if p < v.len() && v[p] == x {
        return;
    }
    v.insert(p, x);
}

/// Law: an explicit reference always wins over semantic search.  Whenever
/// the text holds a resolvable explicit reference, hybrid detection returns
/// exactly that record with full confidence and the explicit-reference tag,
/// whatever semantic candidate is also supplied.
pub proof fn lemma_explicit_reference_wins(
    store: BibleStore,
    text: Seq<u8>,
    semantic: Option<SemanticCandidate>,
)
    requires
        store.spec_detect_ref(text) is Some,
    ensures
        ({
            let r = store.spec_hybrid(text, semantic);
            match store.spec_detect_ref(text) {
                Some(j) => r.verse == Some(store.spec_cache()[j]) && r.confidence_milli
                    == CONFIDENCE_FULL_MILLI && r.source is ExplicitReference,
                None => false,
            }
        }),
{
}

/// Law: no semantic match is ever reported below the acceptance threshold.
/// With no explicit reference in the text and a best cosine similarity under
/// 450 thousandths, hybrid detection reports no match at all.
pub proof fn lemma_below_threshold_no_match(store: BibleStore, text: Seq<u8>, c: SemanticCandidate)
    requires
        store.spec_detect_ref(text) is None,
        c.score_milli < SEMANTIC_THRESHOLD_MILLI,
    ensures
        store.spec_hybrid(text, Some(c)).verse is None,
        store.spec_hybrid(text, Some(c)).confidence_milli == 0,
        store.spec_hybrid(text, Some(c)).source is NoMatch,
{
}

/// How many results keyword search returns at most.
pub const SEARCH_LIMIT: usize = 10;

/// Shortest query term that participates in keyword search.
pub const MIN_TERM_LEN: usize = 2;

/// A stop-word: too common to contribute to keyword scoring.
pub open spec fn spec_is_stop(w: Seq<u8>) -> bool {
    ||| w == "the".spec_bytes()
    ||| w == "and".spec_bytes()
    ||| w == "for".spec_bytes()
    ||| w == "that".spec_bytes()
    ||| w == "with".spec_bytes()
    ||| w == "this".spec_bytes()
    ||| w == "are".spec_bytes()
    ||| w == "was".spec_bytes()
    ||| w == "were".spec_bytes()
    ||| w == "they".spec_bytes()
    ||| w == "them".spec_bytes()
    ||| w == "from".spec_bytes()
    ||| w == "have".spec_bytes()
    ||| w == "has".spec_bytes()
    ||| w == "not".spec_bytes()
    ||| w == "but".spec_bytes()
    ||| w == "his".spec_bytes()
    ||| w == "her".spec_bytes()
    ||| w == "our".spec_bytes()
    ||| w == "your".spec_bytes()
    ||| w == "its".spec_bytes()
    ||| w == "who".spec_bytes()
    ||| w == "all".spec_bytes()
    ||| w == "one".spec_bytes()
    ||| w == "you".spec_bytes()
    ||| w == "him".spec_bytes()
    ||| w == "she".spec_bytes()
    ||| w == "what".spec_bytes()
    ||| w == "will".spec_bytes()
    ||| w == "said".spec_bytes()
    ||| w == "when".spec_bytes()
    ||| w == "also".spec_bytes()
    ||| w == "into".spec_bytes()
    ||| w == "unto".spec_bytes()
    ||| w == "shall".spec_bytes()
    ||| w == "thee".spec_bytes()
    ||| w == "thou".spec_bytes()
    ||| w == "thy".spec_bytes()
}

/// Whether a token of the lower-cased query takes part in scoring.
pub open spec fn spec_is_term(w: Seq<u8>) -> bool {
    w.len() >= MIN_TERM_LEN && !spec_is_stop(w)
}

/// The scoring terms kept from a token list, in order.
pub open spec fn spec_filter_terms(ws: Seq<Seq<u8>>) -> Seq<Seq<u8>>
    decreases ws.len(),
{
    if ws.len() == 0 {
        Seq::empty()
    } else {
        let prev = spec_filter_terms(ws.drop_last());
        if spec_is_term(ws.last()) {
            prev.push(ws.last())
        } else {
            prev
        }
    }
}

/// The scoring terms of a raw query: lower-cased, split on whitespace,
/// stop-words and one-byte tokens removed.
pub open spec fn spec_query_terms(q: Seq<u8>) -> Seq<Seq<u8>> {
    spec_filter_terms(crate::text::spec_tokens(spec_lower(q)))
}

/// A record's score: how many of the terms occur as substrings of its
/// lower-cased text (repeated query terms count repeatedly, as typed).
pub open spec fn spec_score(terms: Seq<Seq<u8>>, tlow: Seq<u8>) -> int
    decreases terms.len(),
{
    if terms.len() == 0 {
        0int
    } else {
        spec_score(terms.drop_last(), tlow) + if spec_contains(tlow, terms.last()) {
            1int
        } else {
            0int
        }
    }
}

/// The scored candidates of `cache[lo..j)`: a `(score, index)` pair for
/// every record with a positive score, in corpus order.
pub open spec fn spec_cands(cache: Seq<Verse>, lo: int, j: int, terms: Seq<Seq<u8>>) -> Seq<
    (int, int),
>
    decreases j - lo,
    when 0 <= lo <= j <= cache.len()
{
    if j <= lo {
        Seq::empty()
    } else {
        let prev = spec_cands(cache, lo, j - 1, terms);
        let sc = spec_score(terms, spec_lower(encode_utf8(cache[j - 1].text@)));
        if sc > 0 {
            prev.push((sc, j - 1))
        } else {
            prev
        }
    }
}

/// The ranking order: higher score first, ties broken by corpus order.
pub open spec fn spec_ranked_before(a: (int, int), b: (int, int)) -> bool {
    a.0 > b.0 || (a.0 == b.0 && a.1 < b.1)
}

/// Inserts a candidate before the first one it outranks.
pub open spec fn spec_insert_ranked(s: Seq<(int, int)>, x: (int, int)) -> Seq<(int, int)>
    decreases s.len(),
{
    if s.len() == 0 {
        seq![x]
    } else if spec_ranked_before(x, s[0]) {
        seq![x] + s
    } else {
        seq![s[0]] + spec_insert_ranked(s.drop_first(), x)
    }
}

/// The candidates sorted by descending score, ties in corpus order.
pub open spec fn spec_rank(cands: Seq<(int, int)>) -> Seq<(int, int)>
    decreases cands.len(),
{
    if cands.len() == 0 {
        Seq::empty()
    } else {
        spec_insert_ranked(spec_rank(cands.drop_last()), cands.last())
    }
}

/// The views of an executable `(score, index)` pair vector.
pub open spec fn spec_pair_views(v: Seq<(usize, usize)>) -> Seq<(int, int)> {
    v.map_values(|p: (usize, usize)| (p.0 as int, p.1 as int))
}

/// `spec_insert_ranked` inserts at the first position whose element the new
/// candidate outranks.
proof fn lemma_insert_ranked_at(s: Seq<(int, int)>, x: (int, int), p: int)
    requires
        0 <= p <= s.len(),
        forall|k: int| 0 <= k < p ==> !spec_ranked_before(x, s[k]),
        p < s.len() ==> spec_ranked_before(x, s[p]),
    ensures
        spec_insert_ranked(s, x) == s.insert(p, x),
    decreases s.len(),
{
    if s.len() == 0 {
        assert(spec_insert_ranked(s, x) =~= s.insert(0, x));
    } else if p == 0 {
        assert(seq![x] + s =~= s.insert(0, x));
    } else {
        lemma_insert_ranked_at(s.drop_first(), x, p - 1);
        assert(seq![s[0]] + s.drop_first().insert(p - 1, x) =~= s.insert(p, x));
    }
}

/// With no scoring terms every record scores zero, so there are no
/// candidates.
proof fn lemma_no_terms_no_cands(cache: Seq<Verse>, lo: int, j: int)
    requires
        0 <= lo <= j <= cache.len(),
    ensures
        spec_cands(cache, lo, j, Seq::empty()).len() == 0,
    decreases j - lo,
{
    if j > lo {
        lemma_no_terms_no_cands(cache, lo, j - 1);
    }
}

/// Decides whether a term participates in scoring.
fn is_term(w: &[u8]) -> (r: bool)
    ensures
        r == spec_is_term(w@),
{
    if w.len() < MIN_TERM_LEN {
        return false;
    }
    let stop = bytes_eq(w, "the".as_bytes()) || bytes_eq(w, "and".as_bytes()) || bytes_eq(
        w,
        "for".as_bytes(),
    ) || bytes_eq(w, "that".as_bytes()) || bytes_eq(w, "with".as_bytes()) || bytes_eq(
        w,
        "this".as_bytes(),
    ) || bytes_eq(w, "are".as_bytes()) || bytes_eq(w, "was".as_bytes()) || bytes_eq(
        w,
        "were".as_bytes(),
    ) || bytes_eq(w, "they".as_bytes()) || bytes_eq(w, "them".as_bytes()) || bytes_eq(
        w,
        "from".as_bytes(),
    ) || bytes_eq(w, "have".as_bytes()) || bytes_eq(w, "has".as_bytes()) || bytes_eq(
        w,
        "not".as_bytes(),
    ) || bytes_eq(w, "but".as_bytes()) || bytes_eq(w, "his".as_bytes()) || bytes_eq(
        w,
        "her".as_bytes(),
    ) || bytes_eq(w, "our".as_bytes()) || bytes_eq(w, "your".as_bytes()) || bytes_eq(
        w,
        "its".as_bytes(),
    ) || bytes_eq(w, "who".as_bytes()) || bytes_eq(w, "all".as_bytes()) || bytes_eq(
        w,
        "one".as_bytes(),
    ) || bytes_eq(w, "you".as_bytes()) || bytes_eq(w, "him".as_bytes()) || bytes_eq(
        w,
        "she".as_bytes(),
    ) || bytes_eq(w, "what".as_bytes()) || bytes_eq(w, "will".as_bytes()) || bytes_eq(
        w,
        "said".as_bytes(),
    ) || bytes_eq(w, "when".as_bytes()) || bytes_eq(w, "also".as_bytes()) || bytes_eq(
        w,
        "into".as_bytes(),
    ) || bytes_eq(w, "unto".as_bytes()) || bytes_eq(w, "shall".as_bytes()) || bytes_eq(
        w,
        "thee".as_bytes(),
    ) || bytes_eq(w, "thou".as_bytes()) || bytes_eq(w, "thy".as_bytes());
    !stop
}

/// Extracts the scoring terms of a raw query.
fn query_terms(q: &[u8]) -> (r: Vec<Vec<u8>>)
    ensures
        crate::text::spec_views(r@) == spec_query_terms(q@),
{
    let low = lower_bytes(q);
    let tokens = crate::text::tokenize(low.as_slice());
    let ghost all = crate::text::spec_views(tokens@);
    let mut out: Vec<Vec<u8>> = Vec::new();
    let mut k: usize = 0;
    while k < tokens.len()
        invariant
            k <= tokens@.len(),
            all == crate::text::spec_views(tokens@),
            all == spec_query_terms(q@).subrange(0, 0) + all,  // keep `all` alive
            crate::text::spec_views(out@) == spec_filter_terms(all.take(k as int)),
        decreases tokens@.len() - k,
    {
        let ghost old_views = crate::text::spec_views(out@);
        proof {
            assert(all.take(k + 1).drop_last() =~= all.take(k as int));
            assert(all.take(k + 1).last() == all[k as int]);
            assert(all[k as int] == tokens@[k as int]@);
        }
        if is_term(tokens[k].as_slice()) {
            let w = slice_to_vec(tokens[k].as_slice());
            out.push(w);
            proof {
                assert(crate::text::spec_views(out@) =~= old_views.push(tokens@[k as int]@));
            }
        }
        k = k + 1;
    }
    proof {
        assert(all.take(tokens@.len() as int) =~= all);
    }
    out
}

/// Counts how many terms occur in the lower-cased record text.
fn count_hits(terms: &Vec<Vec<u8>>, tlow: &[u8]) -> (r: usize)
    ensures
        r == spec_score(crate::text::spec_views(terms@), tlow@),
{
    let ghost all = crate::text::spec_views(terms@);
    let mut count: usize = 0;
    let mut k: usize = 0;
    while k < terms.len()
        invariant
            k <= terms@.len(),
            all == crate::text::spec_views(terms@),
            count <= k,
            count == spec_score(all.take(k as int), tlow@),
        decreases terms@.len() - k,
    {
        proof {
            assert(all.take(k + 1).drop_last() =~= all.take(k as int));
            assert(all.take(k + 1).last() == all[k as int]);
            assert(all[k as int] == terms@[k as int]@);
        }
        if contains_bytes(tlow, terms[k].as_slice()) {
            count = count + 1;
        }
        k = k + 1;
    }
    proof {
        assert(all.take(terms@.len() as int) =~= all);
    }
    count
}

/// Inserts a scored candidate into a ranked vector, keeping descending
/// score order with ties in corpus order.
fn insert_ranked(v: &mut Vec<(usize, usize)>, x: (usize, usize))
    requires
        old(v)@.len() < usize::MAX,
    ensures
        spec_pair_views(final(v)@) == spec_insert_ranked(
            spec_pair_views(old(v)@),
            (x.0 as int, x.1 as int),
        ),
        final(v)@.len() == old(v)@.len() + 1,
        exists|p: int|
            0 <= p <= old(v)@.len() && final(v)@ == #[trigger] old(v)@.insert(p, x),
{
    let ghost xs = (x.0 as int, x.1 as int);
    let ghost views = spec_pair_views(v@);
    let mut p: usize = 0;
    while p < v.len() && !(x.0 > v[p].0 || (x.0 == v[p].0 && x.1 < v[p].1))
        invariant
            p <= v@.len(),
            xs == (x.0 as int, x.1 as int),
            views == spec_pair_views(v@),
            forall|k: int| 0 <= k < p ==> !spec_ranked_before(xs, views[k]),
            v@ == old(v)@,
        decreases v@.len() - p,
    {
        proof {
            assert(views[p as int] == (v@[p as int].0 as int, v@[p as int].1 as int));
        }
        p = p + 1;
    }
    proof {
        if p < v@.len() {
            assert(views[p as int] == (v@[p as int].0 as int, v@[p as int].1 as int));
        }
        lemma_insert_ranked_at(views, xs, p as int);
    }
    v.insert(p, x);
    proof {
        assert(spec_pair_views(v@) =~= spec_insert_ranked(views, xs));
        assert(v@ == old(v)@.insert(p as int, x));
    }
}

impl BibleStore {
    /// The ranked keyword-search candidates of one slice of the cache.
    pub closed spec fn spec_search_ranked(self, query: Seq<u8>, lo: int, hi: int) -> Seq<
        (int, int),
    > {
        spec_rank(spec_cands(self.verse_cache@, lo, hi, spec_query_terms(query)))
    }

    /// The ranked keyword-search candidates of one translation (empty for an
    /// unknown translation).
    pub closed spec fn spec_search(self, query: Seq<u8>, version: Seq<char>) -> Seq<(int, int)> {
        match self.spec_version_index(version) {
            None => Seq::empty(),
            Some(vi) => self.spec_search_ranked(
                query,
                self.version_offsets@[vi] as int,
                self.version_offsets@[vi] + self.version_lengths@[vi],
            ),
        }
    }

    /// Keyword search over `cache[lo..hi)`.
    fn search_range(&self, query: &str, lo: usize, hi: usize) -> (r: Vec<Verse>)
        requires
            self.wf(),
            lo <= hi <= self.spec_cache().len(),
        ensures
            ({
                let ranked = self.spec_search_ranked(query.spec_bytes(), lo as int, hi as int);
                &&& r@.len() == if ranked.len() < SEARCH_LIMIT {
                    ranked.len()
                } else {
                    SEARCH_LIMIT as nat
                }
                &&& forall|k: int|
                    0 <= k < r@.len() ==> (#[trigger] r@[k]) == self.spec_cache()[ranked[k].1]
            }),
    {
        let terms = query_terms(query.as_bytes());
        let ghost tv = crate::text::spec_views(terms@);
        let cache_len: usize = self.verse_cache.len();
        let mut cands: Vec<(usize, usize)> = Vec::new();
        let mut j: usize = lo;
        while j < hi
            invariant
                self.wf(),
                lo <= j <= hi,
                hi <= self.verse_cache@.len(),
                hi <= cache_len,
                cache_len == self.verse_cache@.len(),
                tv == crate::text::spec_views(terms@),
                tv == spec_query_terms(query.spec_bytes()),
                cands@.len() <= j - lo,
                spec_pair_views(cands@) == spec_cands(self.verse_cache@, lo as int, j as int, tv),
                forall|k: int|
                    0 <= k < cands@.len() ==> lo <= (#[trigger] cands@[k]).1 < j,
            decreases hi - j,
        {
            let v = &self.verse_cache[j];
            let tlow = lower_bytes(v.text.as_str().as_bytes());
            let sc = count_hits(&terms, tlow.as_slice());
            let ghost old_views = spec_pair_views(cands@);
            if sc > 0 {
                cands.push((sc, j));
                proof {
                    assert(spec_pair_views(cands@) =~= old_views.push((sc as int, j as int)));
                }
            }
            j = j + 1;
        }
        let mut ranked: Vec<(usize, usize)> = Vec::new();
        let ghost cv = spec_pair_views(cands@);
        let mut k: usize = 0;
        while k < cands.len()
            invariant
                k <= cands@.len(),
                cv == spec_pair_views(cands@),
                ranked@.len() == k,
                spec_pair_views(ranked@) == spec_rank(cv.take(k as int)),
                forall|k2: int|
                    0 <= k2 < cands@.len() ==> lo <= (#[trigger] cands@[k2]).1 < hi,
                forall|m: int| 0 <= m < ranked@.len() ==> lo <= (#[trigger] ranked@[m]).1 < hi,
                hi <= cache_len,
            decreases cands@.len() - k,
        {
            proof {
                assert(cv.take(k + 1).drop_last() =~= cv.take(k as int));
                assert(cv.take(k + 1).last() == cv[k as int]);
                assert(cv[k as int] == (cands@[k as int].0 as int, cands@[k as int].1 as int));
            }
            let ghost before = ranked@;
            insert_ranked(&mut ranked, cands[k]);
            proof {
                let p = choose|p: int|
                    0 <= p <= before.len() && ranked@ == #[trigger] before.insert(p, cands@[k as int]);
                assert(forall|m: int|
                    0 <= m < ranked@.len() ==> lo <= (#[trigger] ranked@[m]).1 < hi);
            }
            k = k + 1;
        }
        proof {
            assert(cv.take(cands@.len() as int) =~= cv);
        }
        let mut out: Vec<Verse> = Vec::new();
        let limit: usize = if ranked.len() < SEARCH_LIMIT {
            ranked.len()
        } else {
            SEARCH_LIMIT
        };
        let mut m: usize = 0;
        while m < limit
            invariant
                m <= limit,
                limit <= ranked@.len(),
                out@.len() == m,
                forall|m2: int| 0 <= m2 < ranked@.len() ==> lo <= (#[trigger] ranked@[m2]).1 < hi,
                hi <= cache_len,
                cache_len == self.verse_cache@.len(),
                forall|k2: int|
                    0 <= k2 < m ==> (#[trigger] out@[k2]) == self.verse_cache@[spec_pair_views(
                        ranked@,
                    )[k2].1],
            decreases limit - m,
        {
            let idx = ranked[m].1;
            out.push(self.verse_cache[idx].clone());
            proof {
                assert(spec_pair_views(ranked@)[m as int] == (
                    ranked@[m as int].0 as int,
                    ranked@[m as int].1 as int,
                ));
            }
            m = m + 1;
        }
        proof {
            assert(spec_pair_views(ranked@) == self.spec_search_ranked(
                query.spec_bytes(),
                lo as int,
                hi as int,
            ));
        }
        out
    }

    /// Full-text keyword search within one translation: every record is
    /// scored by how many query terms (stop-words and one-byte tokens
    /// excluded) occur in its text; the ten best scores are returned in
    /// descending order, ties in corpus order.  A query with no scoring
    /// terms finds nothing.
    pub fn search_manual(&self, query: &str, version: &str) -> (r: Vec<Verse>)
        requires
            self.wf(),
        ensures
            ({
                let ranked = self.spec_search(query.spec_bytes(), version@);
                &&& r@.len() == if ranked.len() < SEARCH_LIMIT {
                    ranked.len()
                } else {
                    SEARCH_LIMIT as nat
                }
                &&& forall|k: int|
                    0 <= k < r@.len() ==> (#[trigger] r@[k]) == self.spec_cache()[ranked[k].1]
            }),
    {
        let vi = match self.version_index(version) {
            Some(vi) => vi,
            None => {
                return Vec::new();
            },
        };
        // Bind the cache length to a machine word: the slice-bound arithmetic
        // below must not overflow.
        let _cache_len: usize = self.verse_cache.len();
        let lo: usize = self.version_offsets[vi];
        let hi: usize = lo + self.version_lengths[vi];
        let results = self.search_range(query, lo, hi);
        proof {
            assert(self.spec_search(query.spec_bytes(), version@) == self.spec_search_ranked(
                query.spec_bytes(),
                lo as int,
                hi as int,
            ));
        }
        results
    }

    /// Keyword search across every loaded translation at once.
    pub fn search_manual_all_versions(&self, query: &str) -> (r: Vec<Verse>)
        requires
            self.wf(),
        ensures
            ({
                let ranked = self.spec_search_ranked(
                    query.spec_bytes(),
                    0,
                    self.spec_cache().len() as int,
                );
                &&& r@.len() == if ranked.len() < SEARCH_LIMIT {
                    ranked.len()
                } else {
                    SEARCH_LIMIT as nat
                }
                &&& forall|k: int|
                    0 <= k < r@.len() ==> (#[trigger] r@[k]) == self.spec_cache()[ranked[k].1]
            }),
    {
        let cache_len: usize = self.verse_cache.len();
        self.search_range(query, 0, cache_len)
    }
}

/// Every scored candidate of `cache[lo..j)` carries an index in that range.
proof fn lemma_cands_in_range(cache: Seq<Verse>, lo: int, j: int, terms: Seq<Seq<u8>>)
    requires
        0 <= lo <= j <= cache.len(),
    ensures
        forall|k: int|
            0 <= k < spec_cands(cache, lo, j, terms).len() ==> lo <= (#[trigger] spec_cands(
                cache,
                lo,
                j,
                terms,
            )[k]).1 < j,
    decreases j - lo,
{
    if j > lo {
        lemma_cands_in_range(cache, lo, j - 1, terms);
        assert forall|k: int|
            0 <= k < spec_cands(cache, lo, j, terms).len() implies lo <= (#[trigger] spec_cands(
            cache,
            lo,
            j,
            terms,
        )[k]).1 < j by {
            let prev = spec_cands(cache, lo, j - 1, terms);
            if k < prev.len() {
                assert(spec_cands(cache, lo, j, terms)[k] == prev[k]);
            }
        }
    }
}

/// Every element of an insertion result was in the input or is the new
/// candidate.
proof fn lemma_insert_ranked_elem(s: Seq<(int, int)>, x: (int, int), k: int)
    requires
        0 <= k < spec_insert_ranked(s, x).len(),
    ensures
        s.contains(spec_insert_ranked(s, x)[k]) || spec_insert_ranked(s, x)[k] == x,
    decreases s.len(),
{
    let out = spec_insert_ranked(s, x);
    if s.len() == 0 {
    } else if spec_ranked_before(x, s[0]) {
        if k > 0 {
            assert(out[k] == s[k - 1]);
            assert(s.contains(out[k]));
        }
    } else {
        if k == 0 {
            assert(out[0] == s[0]);
            assert(s.contains(s[0]));
        } else {
            lemma_insert_ranked_elem(s.drop_first(), x, k - 1);
            let e = out[k];
            assert(e == spec_insert_ranked(s.drop_first(), x)[k - 1]);
            if s.drop_first().contains(e) {
                let m = choose|m: int|
                    0 <= m < s.drop_first().len() && s.drop_first()[m] == e;
                assert(s[m + 1] == e);
                assert(s.contains(e));
            }
        }
    }
}

/// Every element of the ranked sequence is one of the candidates.
proof fn lemma_rank_elem(cands: Seq<(int, int)>, k: int)
    requires
        0 <= k < spec_rank(cands).len(),
    ensures
        cands.contains(spec_rank(cands)[k]),
    decreases cands.len(),
{
    if cands.len() > 0 {
        let prev = spec_rank(cands.drop_last());
        lemma_insert_ranked_elem(prev, cands.last(), k);
        let e = spec_rank(cands)[k];
        if prev.contains(e) {
            let i = choose|i: int| 0 <= i < prev.len() && prev[i] == e;
            lemma_rank_elem(cands.drop_last(), i);
            let m = choose|m: int|
                0 <= m < cands.drop_last().len() && cands.drop_last()[m] == e;
            assert(cands[m] == e);
            assert(cands.contains(e));
        } else {
            assert(e == cands.last());
            assert(cands[cands.len() - 1] == e);
            assert(cands.contains(e));
        }
    }
}

/// A candidate sequence is in ranking order when no later entry outranks an
/// earlier one.
pub open spec fn spec_rank_ordered(s: Seq<(int, int)>) -> bool {
    forall|k: int, l: int|
        0 <= k < l < s.len() ==> !spec_ranked_before(#[trigger] s[l], #[trigger] s[k])
}

/// Inserting by rank preserves ranking order.
proof fn lemma_insert_ranked_ordered(s: Seq<(int, int)>, x: (int, int))
    requires
        spec_rank_ordered(s),
    ensures
        spec_rank_ordered(spec_insert_ranked(s, x)),
    decreases s.len(),
{
    let out = spec_insert_ranked(s, x);
    if s.len() == 0 {
    } else if spec_ranked_before(x, s[0]) {
        assert forall|k: int, l: int|
            0 <= k < l < out.len() implies !spec_ranked_before(out[l], out[k]) by {
            assert(out[l] == s[l - 1]);
            if k == 0 {
                assert(out[0] == x);
                if l > 1 {
                    assert(!spec_ranked_before(s[l - 1], s[0]));
                }
            } else {
                assert(out[k] == s[k - 1]);
            }
        }
    } else {
        let tail = spec_insert_ranked(s.drop_first(), x);
        assert(spec_rank_ordered(s.drop_first())) by {
            assert forall|k: int, l: int|
                0 <= k < l < s.drop_first().len() implies !spec_ranked_before(
                #[trigger] s.drop_first()[l],
                #[trigger] s.drop_first()[k],
            ) by {
                assert(s.drop_first()[l] == s[l + 1]);
                assert(s.drop_first()[k] == s[k + 1]);
            }
        }
        lemma_insert_ranked_ordered(s.drop_first(), x);
        assert forall|k: int, l: int|
            0 <= k < l < out.len() implies !spec_ranked_before(out[l], out[k]) by {
            if k == 0 {
                assert(out[0] == s[0]);
                assert(out[l] == tail[l - 1]);
                lemma_insert_ranked_elem(s.drop_first(), x, l - 1);
                if s.drop_first().contains(tail[l - 1]) {
                    let m = choose|m: int|
                        0 <= m < s.drop_first().len() && s.drop_first()[m] == tail[l - 1];
                    assert(s.drop_first()[m] == s[m + 1]);
                    assert(!spec_ranked_before(s[m + 1], s[0]));
                } else {
                    assert(tail[l - 1] == x);
                }
            } else {
                assert(out[k] == tail[k - 1]);
                assert(out[l] == tail[l - 1]);
            }
        }
    }
}

/// Ranking keeps every candidate: the ranked sequence has one entry per
/// candidate.
proof fn lemma_rank_len(cands: Seq<(int, int)>)
    ensures
        spec_rank(cands).len() == cands.len(),
    decreases cands.len(),
{
    if cands.len() > 0 {
        lemma_rank_len(cands.drop_last());
        lemma_insert_ranked_len(spec_rank(cands.drop_last()), cands.last());
    }
}

proof fn lemma_insert_ranked_len(s: Seq<(int, int)>, x: (int, int))
    ensures
        spec_insert_ranked(s, x).len() == s.len() + 1,
    decreases s.len(),
{
    if s.len() > 0 && !spec_ranked_before(x, s[0]) {
        lemma_insert_ranked_len(s.drop_first(), x);
    }
}

/// Law: keyword-search results come out ranked — the result sequence is
/// ordered by descending score with ties in corpus order, and it holds one
/// entry for every record that scored above zero.
pub proof fn lemma_search_ranked_order(store: BibleStore, query: Seq<u8>, lo: int, hi: int)
    requires
        0 <= lo <= hi <= store.spec_cache().len(),
    ensures
        spec_rank_ordered(store.spec_search_ranked(query, lo, hi)),
        store.spec_search_ranked(query, lo, hi).len() == spec_cands(
            store.spec_cache(),
            lo,
            hi,
            spec_query_terms(query),
        ).len(),
{
    let cands = spec_cands(store.spec_cache(), lo, hi, spec_query_terms(query));
    lemma_rank_len(cands);
    lemma_rank_ordered(cands);
}

/// The ranked form of any candidate sequence is in ranking order.
proof fn lemma_rank_ordered(cands: Seq<(int, int)>)
    ensures
        spec_rank_ordered(spec_rank(cands)),
    decreases cands.len(),
{
    if cands.len() > 0 {
        lemma_rank_ordered(cands.drop_last());
        lemma_insert_ranked_ordered(spec_rank(cands.drop_last()), cands.last());
    }
}

/// Law: keyword search stays inside the searched slice — every ranked
/// result's index lies in `[lo, hi)`, so each returned record really is a
/// record of the searched translation range.
pub proof fn lemma_search_ranked_bounds(store: BibleStore, query: Seq<u8>, lo: int, hi: int)
    requires
        0 <= lo <= hi <= store.spec_cache().len(),
    ensures
        forall|k: int|
            0 <= k < store.spec_search_ranked(query, lo, hi).len() ==> lo <= (
            #[trigger] store.spec_search_ranked(query, lo, hi)[k]).1 < hi,
{
    let terms = spec_query_terms(query);
    let cands = spec_cands(store.spec_cache(), lo, hi, terms);
    lemma_cands_in_range(store.spec_cache(), lo, hi, terms);
    assert forall|k: int|
        0 <= k < store.spec_search_ranked(query, lo, hi).len() implies lo <= (
    #[trigger] store.spec_search_ranked(query, lo, hi)[k]).1 < hi by {
        lemma_rank_elem(cands, k);
        let e = spec_rank(cands)[k];
        let m = choose|m: int| 0 <= m < cands.len() && cands[m] == e;
        assert(lo <= cands[m].1 < hi);
    }
}

/// Law: a query holding only stop-words or one-byte tokens finds nothing —
/// with no scoring terms, no record scores above zero, so the ranked result
/// of keyword search is empty.
pub proof fn lemma_stop_words_only_empty_search(
    store: BibleStore,
    query: Seq<u8>,
    lo: int,
    hi: int,
)
    requires
        0 <= lo <= hi <= store.spec_cache().len(),
        spec_query_terms(query) == Seq::<Seq<u8>>::empty(),
    ensures
        store.spec_search_ranked(query, lo, hi).len() == 0,
{
    lemma_no_terms_no_cands(store.spec_cache(), lo, hi);
}

/// The alias table mapping lower-cased spoken book tokens (including common
/// abbreviations and misspellings) to canonical book names.
fn book_alias_table() -> Vec<(Vec<u8>, String)> {
    let mut t: Vec<(Vec<u8>, String)> = Vec::new();
    push_alias(&mut t, "genesis", "Genesis");
    push_alias(&mut t, "gen", "Genesis");
    push_alias(&mut t, "gn", "Genesis");
    push_alias(&mut t, "exodus", "Exodus");
    push_alias(&mut t, "exod", "Exodus");
    push_alias(&mut t, "ex", "Exodus");
    push_alias(&mut t, "leviticus", "Leviticus");
    push_alias(&mut t, "lev", "Leviticus");
    push_alias(&mut t, "lv", "Leviticus");
    push_alias(&mut t, "numbers", "Numbers");
    push_alias(&mut t, "num", "Numbers");
    push_alias(&mut t, "nm", "Numbers");
    push_alias(&mut t, "deuteronomy", "Deuteronomy");
    push_alias(&mut t, "deut", "Deuteronomy");
    push_alias(&mut t, "dt", "Deuteronomy");
    push_alias(&mut t, "joshua", "Joshua");
    push_alias(&mut t, "josh", "Joshua");
    push_alias(&mut t, "jos", "Joshua");
    push_alias(&mut t, "judges", "Judges");
    push_alias(&mut t, "judg", "Judges");
    push_alias(&mut t, "jdg", "Judges");
    push_alias(&mut t, "ruth", "Ruth");
    push_alias(&mut t, "rth", "Ruth");
    push_alias(&mut t, "1 samuel", "1 Samuel");
    push_alias(&mut t, "1samuel", "1 Samuel");
    push_alias(&mut t, "1sam", "1 Samuel");
    push_alias(&mut t, "1sm", "1 Samuel");
    push_alias(&mut t, "2 samuel", "2 Samuel");
    push_alias(&mut t, "2samuel", "2 Samuel");
    push_alias(&mut t, "2sam", "2 Samuel");
    push_alias(&mut t, "2sm", "2 Samuel");
    push_alias(&mut t, "1 kings", "1 Kings");
    push_alias(&mut t, "1kings", "1 Kings");
    push_alias(&mut t, "1kgs", "1 Kings");
    push_alias(&mut t, "1kg", "1 Kings");
    push_alias(&mut t, "2 kings", "2 Kings");
    push_alias(&mut t, "2kings", "2 Kings");
    push_alias(&mut t, "2kgs", "2 Kings");
    push_alias(&mut t, "2kg", "2 Kings");
    push_alias(&mut t, "1 chronicles", "1 Chronicles");
    push_alias(&mut t, "1chronicles", "1 Chronicles");
    push_alias(&mut t, "1chr", "1 Chronicles");
    push_alias(&mut t, "2 chronicles", "2 Chronicles");
    push_alias(&mut t, "2chronicles", "2 Chronicles");
    push_alias(&mut t, "2chr", "2 Chronicles");
    push_alias(&mut t, "ezra", "Ezra");
    push_alias(&mut t, "ezr", "Ezra");
    push_alias(&mut t, "nehemiah", "Nehemiah");
    push_alias(&mut t, "neh", "Nehemiah");
    push_alias(&mut t, "esther", "Esther");
    push_alias(&mut t, "esth", "Esther");
    push_alias(&mut t, "est", "Esther");
    push_alias(&mut t, "job", "Job");
    push_alias(&mut t, "jb", "Job");
    push_alias(&mut t, "psalms", "Psalms");
    push_alias(&mut t, "psalm", "Psalms");
    push_alias(&mut t, "ps", "Psalms");
    push_alias(&mut t, "psa", "Psalms");
    push_alias(&mut t, "proverbs", "Proverbs");
    push_alias(&mut t, "prov", "Proverbs");
    push_alias(&mut t, "prv", "Proverbs");
    push_alias(&mut t, "ecclesiastes", "Ecclesiastes");
    push_alias(&mut t, "eccl", "Ecclesiastes");
    push_alias(&mut t, "ecc", "Ecclesiastes");
    push_alias(&mut t, "song of solomon", "Song of Solomon");
    push_alias(&mut t, "song", "Song of Solomon");
    push_alias(&mut t, "sos", "Song of Solomon");
    push_alias(&mut t, "isaiah", "Isaiah");
    push_alias(&mut t, "isa", "Isaiah");
    push_alias(&mut t, "is", "Isaiah");
    push_alias(&mut t, "jeremiah", "Jeremiah");
    push_alias(&mut t, "jer", "Jeremiah");
    push_alias(&mut t, "lamentations", "Lamentations");
    push_alias(&mut t, "lam", "Lamentations");
    push_alias(&mut t, "ezekiel", "Ezekiel");
    push_alias(&mut t, "ezek", "Ezekiel");
    push_alias(&mut t, "ezk", "Ezekiel");
    push_alias(&mut t, "daniel", "Daniel");
    push_alias(&mut t, "dan", "Daniel");
    push_alias(&mut t, "dn", "Daniel");
    push_alias(&mut t, "hosea", "Hosea");
    push_alias(&mut t, "hos", "Hosea");
    push_alias(&mut t, "joel", "Joel");
    push_alias(&mut t, "jl", "Joel");
    push_alias(&mut t, "amos", "Amos");
    push_alias(&mut t, "am", "Amos");
    push_alias(&mut t, "obadiah", "Obadiah");
    push_alias(&mut t, "obad", "Obadiah");
    push_alias(&mut t, "ob", "Obadiah");
    push_alias(&mut t, "jonah", "Jonah");
    push_alias(&mut t, "jon", "Jonah");
    push_alias(&mut t, "micah", "Micah");
    push_alias(&mut t, "mic", "Micah");
    push_alias(&mut t, "nahum", "Nahum");
    push_alias(&mut t, "nah", "Nahum");
    push_alias(&mut t, "na", "Nahum");
    push_alias(&mut t, "habakkuk", "Habakkuk");
    push_alias(&mut t, "hab", "Habakkuk");
    push_alias(&mut t, "zephaniah", "Zephaniah");
    push_alias(&mut t, "zeph", "Zephaniah");
    push_alias(&mut t, "zep", "Zephaniah");
    push_alias(&mut t, "haggai", "Haggai");
    push_alias(&mut t, "hag", "Haggai");
    push_alias(&mut t, "zechariah", "Zechariah");
    push_alias(&mut t, "zech", "Zechariah");
    push_alias(&mut t, "zec", "Zechariah");
    push_alias(&mut t, "malachi", "Malachi");
    push_alias(&mut t, "mal", "Malachi");
    push_alias(&mut t, "matthew", "Matthew");
    push_alias(&mut t, "matt", "Matthew");
    push_alias(&mut t, "mt", "Matthew");
    push_alias(&mut t, "mark", "Mark");
    push_alias(&mut t, "mrk", "Mark");
    push_alias(&mut t, "mk", "Mark");
    push_alias(&mut t, "luke", "Luke");
    push_alias(&mut t, "lk", "Luke");
    push_alias(&mut t, "john", "John");
    push_alias(&mut t, "jn", "John");
    push_alias(&mut t, "acts", "Acts");
    push_alias(&mut t, "act", "Acts");
    push_alias(&mut t, "romans", "Romans");
    push_alias(&mut t, "rom", "Romans");
    push_alias(&mut t, "rm", "Romans");
    push_alias(&mut t, "1 corinthians", "1 Corinthians");
    push_alias(&mut t, "1corinthians", "1 Corinthians");
    push_alias(&mut t, "1cor", "1 Corinthians");
    push_alias(&mut t, "2 corinthians", "2 Corinthians");
    push_alias(&mut t, "2corinthians", "2 Corinthians");
    push_alias(&mut t, "2cor", "2 Corinthians");
    push_alias(&mut t, "galatians", "Galatians");
    push_alias(&mut t, "gal", "Galatians");
    push_alias(&mut t, "ephesians", "Ephesians");
    push_alias(&mut t, "eph", "Ephesians");
    push_alias(&mut t, "philippians", "Philippians");
    push_alias(&mut t, "phil", "Philippians");
    push_alias(&mut t, "php", "Philippians");
    push_alias(&mut t, "colossians", "Colossians");
    push_alias(&mut t, "col", "Colossians");
    push_alias(&mut t, "1 thessalonians", "1 Thessalonians");
    push_alias(&mut t, "1thessalonians", "1 Thessalonians");
    push_alias(&mut t, "1thess", "1 Thessalonians");
    push_alias(&mut t, "2 thessalonians", "2 Thessalonians");
    push_alias(&mut t, "2thessalonians", "2 Thessalonians");
    push_alias(&mut t, "2thess", "2 Thessalonians");
    push_alias(&mut t, "1 timothy", "1 Timothy");
    push_alias(&mut t, "1timothy", "1 Timothy");
    push_alias(&mut t, "1tim", "1 Timothy");
    push_alias(&mut t, "2 timothy", "2 Timothy");
    push_alias(&mut t, "2timothy", "2 Timothy");
    push_alias(&mut t, "2tim", "2 Timothy");
    push_alias(&mut t, "titus", "Titus");
    push_alias(&mut t, "tit", "Titus");
    push_alias(&mut t, "philemon", "Philemon");
    push_alias(&mut t, "philem", "Philemon");
    push_alias(&mut t, "phm", "Philemon");
    push_alias(&mut t, "hebrews", "Hebrews");
    push_alias(&mut t, "heb", "Hebrews");
    push_alias(&mut t, "james", "James");
    push_alias(&mut t, "jas", "James");
    push_alias(&mut t, "jm", "James");
    push_alias(&mut t, "1 peter", "1 Peter");
    push_alias(&mut t, "1peter", "1 Peter");
    push_alias(&mut t, "1pet", "1 Peter");
    push_alias(&mut t, "2 peter", "2 Peter");
    push_alias(&mut t, "2peter", "2 Peter");
    push_alias(&mut t, "2pet", "2 Peter");
    push_alias(&mut t, "1 john", "1 John");
    push_alias(&mut t, "1john", "1 John");
    push_alias(&mut t, "1jn", "1 John");
    push_alias(&mut t, "2 john", "2 John");
    push_alias(&mut t, "2john", "2 John");
    push_alias(&mut t, "2jn", "2 John");
    push_alias(&mut t, "3 john", "3 John");
    push_alias(&mut t, "3john", "3 John");
    push_alias(&mut t, "3jn", "3 John");
    push_alias(&mut t, "jude", "Jude");
    push_alias(&mut t, "jud", "Jude");
    push_alias(&mut t, "revelation", "Revelation");
    push_alias(&mut t, "rev", "Revelation");
    push_alias(&mut t, "rv", "Revelation");
    t
}

/// Appends one alias-table entry.
fn push_alias(t: &mut Vec<(Vec<u8>, String)>, key: &str, canonical: &str)
    requires
        old(t)@.len() < usize::MAX,
    ensures
        final(t)@.len() == old(t)@.len() + 1,
        forall|i: int| 0 <= i < old(t)@.len() ==> final(t)@[i] == old(t)@[i],
        (final(t)@.last().0)@ == key.spec_bytes(),
        (final(t)@.last().1)@ == canonical@,
{
    let entry = (slice_to_vec(key.as_bytes()), canonical.to_owned());
    t.push(entry);
}

} // verus!
