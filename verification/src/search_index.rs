//! What the full-text index stores for a document and what it hands back.

use vstd::prelude::*;
use vstd::string::*;
use crate::document::Document;
use crate::status::status_name;
use crate::text::{id_views, join_strings, join_texts};

verus! {

/// The fields indexed for a document: identifier, title, content, status
/// name, and the tags joined with spaces.
pub struct IndexFields {
    pub id: String,
    pub title: String,
    pub content: String,
    pub status: String,
    pub tags: String,
}

/// The fields to index for a document.
pub fn index_fields(doc: &Document) -> (f: IndexFields)
    ensures
        f.id@ == doc.id@,
        f.title@ == doc.title@,
        f.content@ == doc.content@,
        f.status@ == status_name(doc.status),
        f.tags@ == join_texts(id_views(doc.tags@), " "@),
{
    IndexFields {
        id: doc.id.clone(),
        title: doc.title.clone(),
        content: doc.content.clone(),
        status: doc.status.to_string(),
        tags: join_strings(&doc.tags, " "),
    }
}

/// The document identifier of a search hit: the stored identifier when it
/// is a non-empty text; hits without one are dropped.
pub fn hit_document_id(stored_id: Option<String>) -> (r: Option<String>)
    ensures
        match stored_id {
            Some(s) => if s@.len() > 0 {
                r == Some(s)
            } else {
                r is None
            },
            None => r is None,
        },
{
    match stored_id {
        Some(s) => if s.as_str().is_empty() {
            None
        } else {
            Some(s)
        },
        None => None,
    }
}

} // verus!
