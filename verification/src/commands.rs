//! The decisions taken by the commands of the orchestrator, apart from the
//! storage and index work that the application performs around them.

use vstd::prelude::*;
use vstd::string::*;
use crate::clock::{now, Timestamp};
use crate::digest::{content_digest, content_hash};
use crate::document::Document;
use crate::errors::AxiomError;
use crate::file_manager::{FileManager, document_file};
use crate::ids::{document_id_text, new_document_id, v4_bytes};
use crate::relationship::{Relationship, RelationshipType, relationship_id, relationship_type_name};
use crate::status::{DocumentStatus, parse_status, status_is_readonly, status_name};
use crate::text::{contains_text, lowercase, text_contains, to_lowercase};

verus! {

/// A part of the workspace that must be open for a command: missing means
/// the workspace is not initialised.
pub fn require_initialized<T>(component: Option<T>) -> (r: Result<T, AxiomError>)
    ensures
        match component {
            Some(c) => r == Ok::<T, AxiomError>(c),
            None => r == Err::<T, AxiomError>(AxiomError::WorkspaceNotInitialized),
        },
{
    match component {
        Some(c) => Ok(c),
        None => Err(AxiomError::WorkspaceNotInitialized),
    }
}

/// The number of search results asked for: ten unless given.
pub fn search_limit(limit: Option<usize>) -> (n: usize)
    ensures
        n == match limit {
            Some(l) => l,
            None => 10,
        },
{
    match limit {
        Some(l) => l,
        None => 10,
    }
}

/// The number of similar documents asked for: five unless given.
pub fn similar_limit(limit: Option<usize>) -> (n: usize)
    ensures
        n == match limit {
            Some(l) => l,
            None => 5,
        },
{
    match limit {
        Some(l) => l,
        None => 5,
    }
}

/// A new document of the workspace: identified by the version-4 UUID built
/// from sixteen random bytes, stored at `<workspace>/documents/<id>.md`, a
/// draft with the given title and content, created and updated now.
pub fn new_document(workspace: &str, title: String, content: String, random: [u8; 16]) -> (d: Document)
    ensures
        d.id@ == document_id_text(v4_bytes(random@)),
        d.path@ == document_file(workspace@, d.id@),
        d.title == title,
        d.content == content,
        d.status == DocumentStatus::Draft,
        d.tags@ == Seq::<String>::empty(),
        d.created_at == d.updated_at,
        d.content_hash is None,
        d.embedding is None,
{
    let id = new_document_id(random);
    let files = FileManager::new(String::from_str(workspace));
    let path = files.document_path(id.as_str());
    let mut document = Document::new(id, title, path);
    document.content = content;
    document
}

/// Applies an edit made at time `now`: read-only documents refuse it;
/// otherwise the given title, content (with its hash) and tags replace the
/// old ones, and the modification time becomes `now` when anything was
/// given.
pub fn apply_document_update_at(
    document: Document,
    title: Option<String>,
    content: Option<String>,
    tags: Option<Vec<String>>,
    now: Timestamp,
) -> (r: Result<Document, AxiomError>)
    ensures
        status_is_readonly(document.status) ==> (r matches Err(AxiomError::InvalidStatusTransition { from, to })
            && from@ == status_name(document.status) && to@ == "modified"@),
        !status_is_readonly(document.status) ==> (r matches Ok(d) && d == (Document {
            title: match title {
                Some(t) => t,
                None => document.title,
            },
            content: match content {
                Some(c) => c,
                None => document.content,
            },
            content_hash: match content {
                Some(_) => d.content_hash,
                None => document.content_hash,
            },
            tags: match tags {
                Some(t) => t,
                None => document.tags,
            },
            updated_at: if title is None && content is None && tags is None {
                document.updated_at
            } else {
                now
            },
            ..document
        })),
        r matches Ok(d) ==> (content matches Some(c) ==> (d.content_hash matches Some(h) && h@ == content_digest(c@))),
{
    if document.is_readonly() {
        return Err(AxiomError::InvalidStatusTransition {
            from: document.status.to_string(),
            to: String::from_str("modified"),
        });
    }
    let mut document = document;
    let changed = title.is_some() || content.is_some() || tags.is_some();
    if let Some(t) = title {
        document.title = t;
    }
    if let Some(c) = content {
        document.content_hash = Some(content_hash(c.as_str()));
        document.content = c;
    }
    if let Some(t) = tags {
        document.tags = t;
    }
    if changed {
        document.updated_at = now;
    }
    Ok(document)
}

/// Applies an edit to a document now (see `apply_document_update_at`).
pub fn apply_document_update(
    document: Document,
    title: Option<String>,
    content: Option<String>,
    tags: Option<Vec<String>>,
) -> (r: Result<Document, AxiomError>)
    ensures
        status_is_readonly(document.status) ==> (r matches Err(AxiomError::InvalidStatusTransition { from, to })
            && from@ == status_name(document.status) && to@ == "modified"@),
        !status_is_readonly(document.status) ==> (r matches Ok(d) && d == (Document {
            title: match title {
                Some(t) => t,
                None => document.title,
            },
            content: match content {
                Some(c) => c,
                None => document.content,
            },
            content_hash: match content {
                Some(_) => d.content_hash,
                None => document.content_hash,
            },
            tags: match tags {
                Some(t) => t,
                None => document.tags,
            },
            updated_at: if title is None && content is None && tags is None {
                document.updated_at
            } else {
                d.updated_at
            },
            ..document
        })),
        r matches Ok(d) ==> (content matches Some(c) ==> (d.content_hash matches Some(h) && h@ == content_digest(c@))),
{
    apply_document_update_at(document, title, content, tags, now())
}

/// Reads a requested status; a name that is not a status is refused with
/// the document identifier and the parse message.
pub fn parse_status_request(id: &str, status: &str) -> (r: Result<DocumentStatus, AxiomError>)
    ensures
        match parse_status(status@) {
            Ok(s) => r == Ok::<DocumentStatus, AxiomError>(s),
            Err(msg) => r matches Err(AxiomError::InvalidStatusTransition { from, to }) && from@ == id@
                && to@ == msg,
        },
{
    match DocumentStatus::parse(status) {
        Ok(s) => Ok(s),
        Err(e) => Err(AxiomError::InvalidStatusTransition { from: String::from_str(id), to: e }),
    }
}

/// Checks a request for a new relationship: both documents must exist (the
/// source is checked first) and the kind must be `supersedes` or
/// `references`; then the relationship is made.
pub fn plan_relationship(
    from_id: String,
    to_id: String,
    relationship: &str,
    from_exists: bool,
    to_exists: bool,
) -> (r: Result<Relationship, AxiomError>)
    ensures
        !from_exists ==> (r matches Err(AxiomError::DocumentNotFound(m)) && m == from_id),
        from_exists && !to_exists ==> (r matches Err(AxiomError::DocumentNotFound(m)) && m == to_id),
        from_exists && to_exists && relationship@ != "supersedes"@ && relationship@ != "references"@ ==> (
            r matches Err(AxiomError::InvalidStatusTransition { from, to }) && from@ == relationship@
                && to@ == "valid type"@),
        from_exists && to_exists && (relationship@ == "supersedes"@ || relationship@ == "references"@) ==> (
            r matches Ok(rel) && relationship_type_name(rel.relationship_type) == relationship@
                && rel.from_document_id == from_id && rel.to_document_id == to_id
                && rel.id@ == relationship_id(from_id@, rel.relationship_type, to_id@)),
{
    if !from_exists {
        return Err(AxiomError::DocumentNotFound(from_id));
    }
    if !to_exists {
        return Err(AxiomError::DocumentNotFound(to_id));
    }
    let rel_type = match RelationshipType::from_name(relationship) {
        Some(t) => t,
        None => {
            return Err(AxiomError::InvalidStatusTransition {
                from: String::from_str(relationship),
                to: String::from_str("valid type"),
            });
        },
    };
    Ok(Relationship::new(from_id, to_id, rel_type))
}

/// A document matches a query when the lower-cased query occurs in its
/// lower-cased title or content.
pub open spec fn matches_query(d: Document, q: Seq<char>) -> bool {
    contains_text(lowercase(d.title@), lowercase(q)) || contains_text(lowercase(d.content@), lowercase(q))
}

/// The documents that match a query, in order.
pub open spec fn matching_documents(ds: Seq<Document>, q: Seq<char>) -> Seq<Document>
    decreases ds.len(),
{
    if ds.len() == 0 {
        ds
    } else if matches_query(ds.last(), q) {
        matching_documents(ds.drop_last(), q).push(ds.last())
    } else {
        matching_documents(ds.drop_last(), q)
    }
}

/// The first `n` elements of a list, or all of them if there are fewer.
pub open spec fn first_n<A>(s: Seq<A>, n: nat) -> Seq<A> {
    if s.len() <= n {
        s
    } else {
        s.take(n as int)
    }
}

/// Searches without an index: the first `limit` documents, in order, whose
/// title or content contains the query, ignoring case.
pub fn fallback_search(documents: Vec<Document>, query: &str, limit: usize) -> (r: Vec<Document>)
    ensures
        r@ == first_n(matching_documents(documents@, query@), limit as nat),
        r@ == first_n(documents@.filter(|d: Document| matches_query(d, query@)), limit as nat),
{
    proof {
        lemma_matching_documents_filter(documents@, query@);
    }
    let q = to_lowercase(query);
    let ghost ds = documents@;
    let mut found: Vec<Document> = Vec::new();
    for d in it: documents
        invariant
            it.seq() == ds,
            q@ == lowercase(query@),
            found@ == first_n(matching_documents(ds.take(it.index() as int), query@), limit as nat),
    {
        let ghost before = ds.take(it.index() as int);
        assert(ds.take(it.index() as int + 1).drop_last() =~= before);
        assert(ds.take(it.index() as int + 1).last() == d);
        if found.len() < limit {
            let title = to_lowercase(d.title.as_str());
            let content = to_lowercase(d.content.as_str());
            if text_contains(title.as_str(), q.as_str()) || text_contains(content.as_str(), q.as_str()) {
                found.push(d);
            }
        } else {
            assert(matching_documents(before, query@).len() >= limit);
        }
    }
    assert(ds.take(ds.len() as int) =~= ds);
    found
}

/// The query that adds status and tag filters to a full-text query:
/// `(<query>) AND status:<status> AND tags:<tag>`, with each filter only
/// when it is given.
pub open spec fn filtered_query(query: Seq<char>, status: Option<Seq<char>>, tag: Option<Seq<char>>) -> Seq<char> {
    match (status, tag) {
        (Some(s), Some(t)) => "("@ + query + ") AND status:"@ + s + " AND tags:"@ + t,
        (Some(s), None) => "("@ + query + ") AND status:"@ + s,
        (None, Some(t)) => "("@ + query + ") AND tags:"@ + t,
        (None, None) => query,
    }
}

/// The text of an optional string.
pub open spec fn opt_view(s: Option<String>) -> Option<Seq<char>> {
    match s {
        Some(x) => Some(x@),
        None => None,
    }
}

/// The full-text query for a search with optional status and tag filters.
pub fn snippet_query(query: &str, status_filter: Option<String>, tag_filter: Option<String>) -> (q: String)
    ensures
        q@ == filtered_query(query@, opt_view(status_filter), opt_view(tag_filter)),
{
    match (status_filter, tag_filter) {
        (Some(s), Some(t)) => {
            let q = String::from_str("(").concat(query).concat(") AND status:");
            q.concat(s.as_str()).concat(" AND tags:").concat(t.as_str())
        },
        (Some(s), None) => String::from_str("(").concat(query).concat(") AND status:").concat(s.as_str()),
        (None, Some(t)) => String::from_str("(").concat(query).concat(") AND tags:").concat(t.as_str()),
        (None, None) => String::from_str(query),
    }
}

/// The documents that match a query are those of the list that match it.
proof fn lemma_matching_documents_match(ds: Seq<Document>, q: Seq<char>)
    ensures
        forall|i: int| 0 <= i < matching_documents(ds, q).len() ==> matches_query(#[trigger] matching_documents(ds, q)[i], q),
        matching_documents(ds, q).len() <= ds.len(),
    decreases ds.len(),
{
    if ds.len() > 0 {
        lemma_matching_documents_match(ds.drop_last(), q);
    }
}

/// A search without an index returns at most `limit` documents, each of
/// which contains the query in its title or content, ignoring case.
pub proof fn lemma_fallback_results_match(ds: Seq<Document>, q: Seq<char>, limit: nat)
    ensures
        first_n(matching_documents(ds, q), limit).len() <= limit,
        first_n(matching_documents(ds, q), limit).len() <= ds.len(),
        forall|i: int| 0 <= i < first_n(matching_documents(ds, q), limit).len()
            ==> matches_query(#[trigger] first_n(matching_documents(ds, q), limit)[i], q),
{
    lemma_matching_documents_match(ds, q);
    let m = matching_documents(ds, q);
    assert forall|i: int| 0 <= i < first_n(m, limit).len() implies matches_query(#[trigger] first_n(m, limit)[i], q) by {
        assert(first_n(m, limit)[i] == m[i]);
    }
}

/// The documents that match a query are exactly the documents of the list
/// that match it, in their order: the list filtered by the query.
proof fn lemma_matching_documents_filter(ds: Seq<Document>, q: Seq<char>)
    ensures
        matching_documents(ds, q) == ds.filter(|d: Document| matches_query(d, q)),
    decreases ds.len(),
{
    reveal(Seq::filter);
    if ds.len() > 0 {
        lemma_matching_documents_filter(ds.drop_last(), q);
    }
}

/// A search without an index misses nothing: what it searches through is the
/// list filtered to the documents that match the query, in order; when at
/// most `limit` documents match, every one of them is returned, and otherwise
/// exactly `limit` matching documents are.
pub proof fn lemma_fallback_search_is_complete(ds: Seq<Document>, q: Seq<char>, limit: nat)
    ensures
        matching_documents(ds, q) == ds.filter(|d: Document| matches_query(d, q)),
        ds.filter(|d: Document| matches_query(d, q)).len() <= limit ==> forall|i: int|
            0 <= i < ds.len() && matches_query(ds[i], q) ==> #[trigger] first_n(matching_documents(ds, q), limit).contains(
                ds[i],
            ),
        ds.filter(|d: Document| matches_query(d, q)).len() > limit ==> first_n(matching_documents(ds, q), limit).len()
            == limit,
{
    let f = |d: Document| matches_query(d, q);
    lemma_matching_documents_filter(ds, q);
    ds.filter_lemma(f);
    assert forall|i: int| 0 <= i < ds.len() && matches_query(ds[i], q) implies ds.filter(f).contains(ds[i]) by {
        assert(f(ds[i]));
    }
}

} // verus!
