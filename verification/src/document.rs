//! The document record: content, metadata and lifecycle operations.

use vstd::prelude::*;
use vstd::string::*;
use crate::clock::{now, Timestamp};
use crate::digest::{content_digest, content_hash};
use crate::status::{DocumentStatus, lifecycle_allows, status_is_readonly};

verus! {

/// A document: its content, its metadata and its place in the lifecycle.
///
/// Times are read from the wall clock. The embedding, when present,
/// holds the IEEE-754 bit patterns of its `f32` components.
#[derive(Debug, Clone)]
pub struct Document {
    pub id: String,
    pub title: String,
    pub content: String,
    pub status: DocumentStatus,
    pub path: String,
    pub tags: Vec<String>,
    pub created_at: Timestamp,
    pub updated_at: Timestamp,
    pub content_hash: Option<String>,
    pub embedding: Option<Vec<u32>>,
}

impl Document {
    /// A new draft with empty content and no tags, created and updated now.
    pub fn new(id: String, title: String, path: String) -> (d: Document)
        ensures
            d.id == id,
            d.title == title,
            d.path == path,
            d.content@ == Seq::<char>::empty(),
            d.status == DocumentStatus::Draft,
            d.tags@ == Seq::<String>::empty(),
            d.created_at == d.updated_at,
            d.content_hash is None,
            d.embedding is None,
    {
        let t = now();
        Document {
            id,
            title,
            content: String::new(),
            status: DocumentStatus::Draft,
            path,
            tags: Vec::new(),
            created_at: t,
            updated_at: t,
            content_hash: None,
            embedding: None,
        }
    }

    /// Whether the lifecycle allows moving this document to `new_status`:
    /// draft to active, active to superseded, active to archived.
    pub fn can_transition_to(&self, new_status: &DocumentStatus) -> (b: bool)
        ensures
            b == lifecycle_allows(self.status, *new_status),
    {
        match (self.status, *new_status) {
            (DocumentStatus::Draft, DocumentStatus::Active) => true,
            (DocumentStatus::Active, DocumentStatus::Superseded) => true,
            (DocumentStatus::Active, DocumentStatus::Archived) => true,
            _ => false,
        }
    }

    /// Replaces the content, records the hexadecimal SHA-256 of the new
    /// content and updates the modification time.
    pub fn update_content(&mut self, content: String)
        ensures
            final(self).content_hash matches Some(h) && h@ == content_digest(content@),
            *final(self) == (Document {
                content: content,
                content_hash: final(self).content_hash,
                updated_at: final(self).updated_at,
                ..*old(self)
            }),
    {
        let h = content_hash(content.as_str());
        self.content_hash = Some(h);
        self.content = content;
        self.updated_at = now();
    }

    /// Replaces the title and updates the modification time.
    pub fn update_title(&mut self, title: String)
        ensures
            *final(self) == (Document { title: title, updated_at: final(self).updated_at, ..*old(self) }),
    {
        self.title = title;
        self.updated_at = now();
    }

    /// Replaces the tags and updates the modification time.
    pub fn update_tags(&mut self, tags: Vec<String>)
        ensures
            *final(self) == (Document { tags: tags, updated_at: final(self).updated_at, ..*old(self) }),
    {
        self.tags = tags;
        self.updated_at = now();
    }

    /// Sets the status and updates the modification time.
    pub fn set_status(&mut self, status: DocumentStatus)
        ensures
            *final(self) == (Document { status: status, updated_at: final(self).updated_at, ..*old(self) }),
    {
        self.status = status;
        self.updated_at = now();
    }

    /// Superseded and archived documents are read-only.
    pub fn is_readonly(&self) -> (b: bool)
        ensures
            b == status_is_readonly(self.status),
    {
        match self.status {
            DocumentStatus::Superseded | DocumentStatus::Archived => true,
            _ => false,
        }
    }
}

} // verus!
