//! Sidecar metadata written beside each document, and an in-memory cache of
//! it.

use vstd::prelude::*;
use vstd::string::*;
use crate::clock::{now, Timestamp};
use crate::digest::{short_digest, short_hash};
use crate::text::id_views;
use crate::status::{DocumentStatus, status_name};

verus! {

/// The identifiers that a document supersedes and references.
#[derive(Debug, Clone)]
pub struct RelationshipMetadata {
    pub supersedes: Vec<String>,
    pub references: Vec<String>,
}

impl Default for RelationshipMetadata {
    /// No relationships.
    fn default() -> (r: RelationshipMetadata)
        ensures
            r.supersedes@ == Seq::<String>::empty(),
            r.references@ == Seq::<String>::empty(),
    {
        RelationshipMetadata { supersedes: Vec::new(), references: Vec::new() }
    }
}

/// The metadata of a document kept in a sidecar file, so that status, tags
/// and relationships survive the loss of the database.
///
/// Times are read from the wall clock.
#[derive(Debug, Clone)]
pub struct SidecarMetadata {
    pub version: String,
    pub id: String,
    pub status: DocumentStatus,
    pub tags: Vec<String>,
    pub relationships: RelationshipMetadata,
    pub embedding_checksum: Option<String>,
    pub metadata_checksum: Option<String>,
    pub created_at: Timestamp,
    pub updated_at: Timestamp,
}

/// What `format!("{:?}", tags)` writes for a list of tags.
pub uninterp spec fn debug_list_text(tags: Seq<Seq<char>>) -> Seq<char>;

/// Formats a list of strings with its `Debug` implementation.
///
/// Trusted: the result is named `debug_list_text` of the texts of the tags;
/// the standard library does not fix that format, so nothing more is said.
#[verifier::external_body]
fn debug_list(tags: &Vec<String>) -> (s: String)
    ensures
        s@ == debug_list_text(id_views(tags@)),
{
    format!("{:?}", tags)
}

/// The text that the metadata checksum digests: `<id>-<status>-<tags>`, the
/// tags as their debug listing.
pub open spec fn checksum_input(id: Seq<char>, status: DocumentStatus, tags: Seq<Seq<char>>) -> Seq<char> {
    id + "-"@ + status_name(status) + "-"@ + debug_list_text(tags)
}

impl SidecarMetadata {
    /// Fresh metadata, format version `1.0`, for a draft with no tags, no
    /// relationships and no checksums, created and updated now.
    pub fn new(document_id: String) -> (m: SidecarMetadata)
        ensures
            m.version@ == "1.0"@,
            m.id == document_id,
            m.status == DocumentStatus::Draft,
            m.tags@ == Seq::<String>::empty(),
            m.relationships.supersedes@ == Seq::<String>::empty(),
            m.relationships.references@ == Seq::<String>::empty(),
            m.embedding_checksum is None,
            m.metadata_checksum is None,
            m.created_at == m.updated_at,
    {
        let t = now();
        SidecarMetadata {
            version: String::from_str("1.0"),
            id: document_id,
            status: DocumentStatus::Draft,
            tags: Vec::new(),
            relationships: RelationshipMetadata::default(),
            embedding_checksum: None,
            metadata_checksum: None,
            created_at: t,
            updated_at: t,
        }
    }

    /// Records the checksum of the identifier, status and tags (the first
    /// eight bytes of a SHA-256, in hexadecimal) and updates the modification
    /// time.
    pub fn update_checksum(&mut self)
        ensures
            final(self).metadata_checksum matches Some(c)
                && c@ == short_digest(checksum_input(old(self).id@, old(self).status, id_views(old(self).tags@))),
            *final(self) == (SidecarMetadata {
                metadata_checksum: final(self).metadata_checksum,
                updated_at: final(self).updated_at,
                ..*old(self)
            }),
    {
        let data = self.id.clone().concat("-");
        let data = data.concat(self.status.to_string().as_str()).concat("-");
        let tags = debug_list(&self.tags);
        let data = data.concat(tags.as_str());
        self.metadata_checksum = Some(short_hash(data.as_str()));
        self.updated_at = now();
    }
}

/// The map held by a list of (identifier, metadata) entries: a later entry
/// for an identifier replaces an earlier one.
pub open spec fn entries_map(s: Seq<(String, SidecarMetadata)>) -> Map<Seq<char>, SidecarMetadata>
    decreases s.len(),
{
    if s.len() == 0 {
        Map::empty()
    } else {
        entries_map(s.drop_last()).insert(s.last().0@, s.last().1)
    }
}

/// No identifier has two entries.
pub open spec fn keys_unique(s: Seq<(String, SidecarMetadata)>) -> bool {
    forall|i: int, j: int| 0 <= i < s.len() && 0 <= j < s.len() && i != j ==> s[i].0@ != s[j].0@
}

/// With unique identifiers, the map has exactly the listed identifiers, each
/// with its entry's metadata.
proof fn lemma_entries_map(s: Seq<(String, SidecarMetadata)>)
    requires
        keys_unique(s),
    ensures
        forall|i: int| 0 <= i < s.len() ==> #[trigger] entries_map(s).contains_key(s[i].0@)
            && entries_map(s)[s[i].0@] == s[i].1,
        forall|k: Seq<char>| #[trigger] entries_map(s).contains_key(k) ==> exists|i: int|
            0 <= i < s.len() && s[i].0@ == k,
    decreases s.len(),
{
    if s.len() > 0 {
        let p = s.drop_last();
        assert(keys_unique(p)) by {
            assert forall|i: int, j: int| 0 <= i < p.len() && 0 <= j < p.len() && i != j
                implies p[i].0@ != p[j].0@ by {
                assert(p[i] == s[i] && p[j] == s[j]);
            }
        }
        lemma_entries_map(p);
        assert forall|i: int| 0 <= i < s.len() implies #[trigger] entries_map(s).contains_key(s[i].0@)
            && entries_map(s)[s[i].0@] == s[i].1 by {
            if i < s.len() - 1 {
                assert(p[i] == s[i]);
                assert(entries_map(p).contains_key(p[i].0@));
                assert(s[i].0@ != s[s.len() - 1].0@);
            } else {
                assert(s[i] == s.last());
            }
        }
        assert forall|k: Seq<char>| #[trigger] entries_map(s).contains_key(k) implies exists|i: int|
            0 <= i < s.len() && s[i].0@ == k by {
            if k == s.last().0@ {
                assert(s[s.len() - 1].0@ == k);
            } else {
                assert(entries_map(p).contains_key(k));
                let i = choose|i: int| 0 <= i < p.len() && p[i].0@ == k;
                assert(s[i] == p[i]);
            }
        }
    }
}

/// An in-memory cache of sidecar metadata, by document identifier.
pub struct MetadataCache {
    entries: Vec<(String, SidecarMetadata)>,
}

impl View for MetadataCache {
    type V = Map<Seq<char>, SidecarMetadata>;

    closed spec fn view(&self) -> Map<Seq<char>, SidecarMetadata> {
        entries_map(self.entries@)
    }
}

impl MetadataCache {
    /// The cache is consistent: no identifier is cached twice.
    #[verifier::type_invariant]
    spec fn wf(&self) -> bool {
        keys_unique(self.entries@)
    }

    /// The position of the entry for `id`, if there is one.
    fn find(&self, id: &str) -> (r: Option<usize>)
        ensures
            match r {
                Some(i) => i < self.entries@.len() && self.entries@[i as int].0@ == id@,
                None => forall|i: int| 0 <= i < self.entries@.len() ==> self.entries@[i].0@ != id@,
            },
    {
        let key = String::from_str(id);
        let mut i: usize = 0;
        while i < self.entries.len()
            invariant
                i <= self.entries@.len(),
                key@ == id@,
                forall|j: int| 0 <= j < i ==> self.entries@[j].0@ != id@,
            decreases self.entries@.len() - i,
        {
            if self.entries[i].0 == key {
                return Some(i);
            }
            i = i + 1;
        }
        None
    }

    /// An empty cache.
    pub fn new() -> (c: MetadataCache)
        ensures
            c@ == Map::<Seq<char>, SidecarMetadata>::empty(),
    {
        MetadataCache { entries: Vec::new() }
    }

    /// The cached metadata of `id`, if any.
    pub fn get(&self, id: &str) -> (r: Option<&SidecarMetadata>)
        ensures
            match r {
                Some(m) => self@.contains_key(id@) && *m == self@[id@],
                None => !self@.contains_key(id@),
            },
    {
        proof {
            use_type_invariant(self);
            lemma_entries_map(self.entries@);
        }
        match self.find(id) {
            Some(i) => {
                assert(entries_map(self.entries@).contains_key(self.entries@[i as int].0@));
                Some(&self.entries[i].1)
            },
            None => None,
        }
    }

    /// Caches `metadata` under `id`, replacing what was cached for it.
    pub fn insert(&mut self, id: String, metadata: SidecarMetadata)
        ensures
            final(self)@ == old(self)@.insert(id@, metadata),
    {
        proof {
            use_type_invariant(&*self);
        }
        let ghost old_entries = self.entries@;
        let ghost k = id@;
        proof {
            lemma_entries_map(old_entries);
        }
        let found = self.find(id.as_str());
        let mut entries: Vec<(String, SidecarMetadata)> = Vec::new();
        std::mem::swap(&mut entries, &mut self.entries);
        match found {
            Some(i) => {
                entries.set(i, (id, metadata));
                let ghost s = entries@;
                assert(s == old_entries.update(i as int, s[i as int]));
                assert(keys_unique(s)) by {
                    assert forall|a: int, b: int| 0 <= a < s.len() && 0 <= b < s.len() && a != b
                        implies s[a].0@ != s[b].0@ by {
                        if a != i && b != i {
                            assert(s[a] == old_entries[a] && s[b] == old_entries[b]);
                        } else if a == i {
                            assert(s[b] == old_entries[b]);
                        } else {
                            assert(s[a] == old_entries[a]);
                        }
                    }
                }
                proof {
                    lemma_entries_map(s);
                }
                assert(entries_map(s) =~= entries_map(old_entries).insert(k, metadata)) by {
                    assert forall|key: Seq<char>| #[trigger] entries_map(s).contains_key(key)
                        <==> entries_map(old_entries).insert(k, metadata).contains_key(key) by {
                        if entries_map(s).contains_key(key) && key != k {
                            let j = choose|j: int| 0 <= j < s.len() && s[j].0@ == key;
                            assert(old_entries[j] == s[j]);
                        }
                        if entries_map(old_entries).contains_key(key) && key != k {
                            let j = choose|j: int| 0 <= j < old_entries.len() && old_entries[j].0@ == key;
                            assert(old_entries[j] == s[j]);
                        }
                        if key == k {
                            assert(s[i as int].0@ == key);
                        }
                    }
                    assert forall|key: Seq<char>| #[trigger] entries_map(s).contains_key(key)
                        implies entries_map(s)[key] == entries_map(old_entries).insert(k, metadata)[key] by {
                        let j = choose|j: int| 0 <= j < s.len() && s[j].0@ == key;
                        if j != i {
                            assert(old_entries[j] == s[j]);
                        }
                    }
                }
            },
            None => {
                entries.push((id, metadata));
                let ghost s = entries@;
                assert(s.drop_last() =~= old_entries);
                assert(keys_unique(s)) by {
                    assert forall|a: int, b: int| 0 <= a < s.len() && 0 <= b < s.len() && a != b
                        implies s[a].0@ != s[b].0@ by {
                        if a < old_entries.len() {
                            assert(s[a] == old_entries[a]);
                        }
                        if b < old_entries.len() {
                            assert(s[b] == old_entries[b]);
                        }
                    }
                }
            },
        }
        self.entries = entries;
    }

    /// Takes the metadata of `id` out of the cache and returns it, if it was
    /// cached.
    pub fn remove(&mut self, id: &str) -> (r: Option<SidecarMetadata>)
        ensures
            final(self)@ == old(self)@.remove(id@),
            match r {
                Some(m) => old(self)@.contains_key(id@) && m == old(self)@[id@],
                None => !old(self)@.contains_key(id@),
            },
    {
        proof {
            use_type_invariant(&*self);
        }
        let ghost old_entries = self.entries@;
        proof {
            lemma_entries_map(old_entries);
        }
        match self.find(id) {
            Some(i) => {
                assert(entries_map(old_entries).contains_key(old_entries[i as int].0@));
                let mut entries: Vec<(String, SidecarMetadata)> = Vec::new();
                std::mem::swap(&mut entries, &mut self.entries);
                let (_, m) = entries.remove(i);
                let ghost s = entries@;
                assert(s =~= old_entries.remove(i as int));
                assert(keys_unique(s)) by {
                    assert forall|a: int, b: int| 0 <= a < s.len() && 0 <= b < s.len() && a != b
                        implies s[a].0@ != s[b].0@ by {
                        let oa = if a < i { a } else { a + 1 };
                        let ob = if b < i { b } else { b + 1 };
                        assert(s[a] == old_entries[oa] && s[b] == old_entries[ob]);
                    }
                }
                proof {
                    lemma_entries_map(s);
                }
                assert(entries_map(s) =~= entries_map(old_entries).remove(id@)) by {
                    assert forall|key: Seq<char>| #[trigger] entries_map(s).contains_key(key)
                        <==> entries_map(old_entries).remove(id@).contains_key(key) by {
                        if entries_map(s).contains_key(key) {
                            let j = choose|j: int| 0 <= j < s.len() && s[j].0@ == key;
                            let oj = if j < i { j } else { j + 1 };
                            assert(s[j] == old_entries[oj]);
                        }
                        if entries_map(old_entries).contains_key(key) && key != id@ {
                            let j = choose|j: int| 0 <= j < old_entries.len() && old_entries[j].0@ == key;
                            assert(j != i);
                            let sj = if j < i { j } else { j - 1 };
                            assert(s[sj] == old_entries[j]);
                        }
                    }
                    assert forall|key: Seq<char>| #[trigger] entries_map(s).contains_key(key)
                        implies entries_map(s)[key] == entries_map(old_entries).remove(id@)[key] by {
                        let j = choose|j: int| 0 <= j < s.len() && s[j].0@ == key;
                        let oj = if j < i { j } else { j + 1 };
                        assert(s[j] == old_entries[oj]);
                    }
                }
                self.entries = entries;
                Some(m)
            },
            None => {
                assert(entries_map(old_entries).remove(id@) =~= entries_map(old_entries));
                None
            },
        }
    }

    /// Empties the cache.
    pub fn clear(&mut self)
        ensures
            final(self)@ == Map::<Seq<char>, SidecarMetadata>::empty(),
    {
        self.entries = Vec::new();
        assert(self.entries@ =~= Seq::<(String, SidecarMetadata)>::empty());
    }
}

impl Default for MetadataCache {
    /// An empty cache.
    fn default() -> (c: MetadataCache)
        ensures
            c@ == Map::<Seq<char>, SidecarMetadata>::empty(),
    {
        MetadataCache::new()
    }
}


/// A read of the cache gives back what the latest write stored, a removed
/// identifier is no longer found, and other identifiers are untouched.
pub proof fn lemma_cache_read_after_write(
    cache: Map<Seq<char>, SidecarMetadata>,
    id: Seq<char>,
    other: Seq<char>,
    m: SidecarMetadata,
)
    requires
        other != id,
    ensures
        cache.insert(id, m).contains_key(id) && cache.insert(id, m)[id] == m,
        !cache.remove(id).contains_key(id),
        cache.insert(id, m).contains_key(other) == cache.contains_key(other),
        cache.contains_key(other) ==> cache.insert(id, m)[other] == cache[other],
        cache.remove(id).contains_key(other) == cache.contains_key(other),
{
}

} // verus!
