//! Where a workspace keeps documents and their sidecar metadata.

use vstd::prelude::*;
use vstd::string::*;
use crate::document::Document;
use crate::errors::AxiomError;
use crate::metadata::{SidecarMetadata, checksum_input};
use crate::digest::short_digest;
use crate::status::DocumentStatus;
use crate::text::{clone_strings, has_suffix, id_views, text_ends_with};
use crate::relationship::{DocumentRelationships, RelationsView};

verus! {

/// What `std::path::Path::join` gives for a base path and a further part.
pub uninterp spec fn joined_path(base: Seq<char>, part: Seq<char>) -> Seq<char>;

/// What `std::path::Path::extension` gives for a path.
pub uninterp spec fn path_extension(path: Seq<char>) -> Option<Seq<char>>;

/// What `std::path::Path::file_stem` gives for a path.
pub uninterp spec fn path_file_stem(path: Seq<char>) -> Option<Seq<char>>;

/// Joins two paths with `std::path::Path::join`.
///
/// Trusted: the result is named `joined_path` of the two texts; how `join`
/// joins depends on the platform, so nothing more is said.
#[verifier::external_body]
pub(crate) fn join_path(base: &str, part: &str) -> (p: String)
    ensures
        p@ == joined_path(base@, part@),
{
    std::path::Path::new(base).join(part).to_string_lossy().into_owned()
}

/// The extension of a path, with `std::path::Path::extension`.
///
/// Trusted: the result is named `path_extension` of the path's text.
#[verifier::external_body]
pub(crate) fn extension_of(path: &str) -> (e: Option<String>)
    ensures
        match e {
            Some(x) => path_extension(path@) == Some(x@),
            None => path_extension(path@) is None,
        },
{
    match std::path::Path::new(path).extension() {
        Some(x) => Some(x.to_string_lossy().into_owned()),
        None => None,
    }
}

/// The file stem of a path, with `std::path::Path::file_stem`.
///
/// Trusted: the result is named `path_file_stem` of the path's text.
#[verifier::external_body]
pub(crate) fn file_stem_of(path: &str) -> (s: Option<String>)
    ensures
        match s {
            Some(x) => path_file_stem(path@) == Some(x@),
            None => path_file_stem(path@) is None,
        },
{
    match std::path::Path::new(path).file_stem() {
        Some(x) => Some(x.to_string_lossy().into_owned()),
        None => None,
    }
}

/// The directory of the documents of a workspace.
pub open spec fn documents_dir(workspace: Seq<char>) -> Seq<char> {
    joined_path(workspace, "documents"@)
}

/// The path of a document's content: `<workspace>/documents/<id>.md`.
pub open spec fn document_file(workspace: Seq<char>, id: Seq<char>) -> Seq<char> {
    joined_path(documents_dir(workspace), id + ".md"@)
}

/// The path of a document's sidecar: `<workspace>/documents/<id>.sidecar.json`.
pub open spec fn sidecar_file(workspace: Seq<char>, id: Seq<char>) -> Seq<char> {
    joined_path(documents_dir(workspace), id + ".sidecar.json"@)
}

/// The sidecar metadata records a document's identifier, status, tags and
/// creation time.
pub open spec fn sidecar_describes(m: SidecarMetadata, d: Document) -> bool {
    &&& m.id == d.id
    &&& m.status == d.status
    &&& id_views(m.tags@) == id_views(d.tags@)
    &&& m.created_at == d.created_at
}

/// The sidecar metadata records the documents that a document supersedes and
/// those it references, in order.
pub open spec fn sidecar_lineage(m: SidecarMetadata, v: RelationsView) -> bool {
    &&& id_views(m.relationships.supersedes@) == v.supersedes
    &&& id_views(m.relationships.references@) == v.references
}

/// A path found in the documents directory names a sidecar file
/// (`<id>.sidecar.json`) when its extension is `json` and its file stem ends
/// with `.sidecar`.
pub open spec fn is_sidecar_path(path: Seq<char>) -> bool {
    &&& path_extension(path) == Some("json"@)
    &&& path_file_stem(path) matches Some(stem) && has_suffix(stem, ".sidecar"@)
}

/// The files of a workspace.
pub struct FileManager {
    pub workspace_path: String,
}

impl FileManager {
    /// A file manager for the workspace at `workspace_path`.
    pub fn new(workspace_path: String) -> (f: FileManager)
        ensures
            f.workspace_path == workspace_path,
    {
        FileManager { workspace_path }
    }

    /// The path of the content of document `document_id`.
    pub fn document_path(&self, document_id: &str) -> (p: String)
        ensures
            p@ == document_file(self.workspace_path@, document_id@),
    {
        let dir = join_path(self.workspace_path.as_str(), "documents");
        let name = String::from_str(document_id).concat(".md");
        join_path(dir.as_str(), name.as_str())
    }

    /// The path of the sidecar metadata of document `document_id`.
    pub fn sidecar_path(&self, document_id: &str) -> (p: String)
        ensures
            p@ == sidecar_file(self.workspace_path@, document_id@),
    {
        let dir = join_path(self.workspace_path.as_str(), "documents");
        let name = String::from_str(document_id).concat(".sidecar.json");
        join_path(dir.as_str(), name.as_str())
    }

    /// The free space assumed on the disk: one gibibyte.
    pub fn check_disk_space(&self) -> (r: Result<u64, AxiomError>)
        ensures
            r == Ok::<u64, AxiomError>(1073741824),
    {
        Ok(1024 * 1024 * 1024)
    }

    /// The sidecar metadata written beside a document: format `1.0`, the
    /// document's identifier, status, tags and creation time, the documents it
    /// supersedes and references (so that its lineage survives the loss of the
    /// database), and the checksum of identifier, status and tags; its
    /// modification time is the time of the checksum.
    pub fn sidecar_for(&self, document: &Document, relationships: &DocumentRelationships) -> (m: SidecarMetadata)
        ensures
            m.version@ == "1.0"@,
            sidecar_describes(m, *document),
            sidecar_lineage(m, relationships@),
            m.embedding_checksum is None,
            m.metadata_checksum matches Some(c)
                && c@ == short_digest(checksum_input(document.id@, document.status, id_views(document.tags@))),
    {
        let mut sidecar = SidecarMetadata::new(document.id.clone());
        sidecar.status = document.status;
        sidecar.tags = clone_strings(&document.tags);
        sidecar.created_at = document.created_at;
        sidecar.updated_at = document.updated_at;
        sidecar.relationships.supersedes = clone_strings(&relationships.supersedes);
        sidecar.relationships.references = clone_strings(&relationships.references);
        sidecar.update_checksum();
        sidecar
    }

    /// Whether a path found in the documents directory names a sidecar file.
    pub fn is_sidecar_file(&self, path: &str) -> (b: bool)
        ensures
            b == is_sidecar_path(path@),
    {
        let is_json = match extension_of(path) {
            Some(e) => e == String::from_str("json"),
            None => false,
        };
        if !is_json {
            return false;
        }
        match file_stem_of(path) {
            Some(stem) => text_ends_with(stem.as_str(), ".sidecar"),
            None => false,
        }
    }

    /// For a path found in the documents directory: the document identifier
    /// (the file stem) of a `.md` file, `None` for any other file, and an
    /// error for a `.md` path without a file stem.
    pub fn listed_document_id(&self, path: &str) -> (r: Result<Option<String>, AxiomError>)
        ensures
            path_extension(path@) != Some("md"@) ==> r == Ok::<Option<String>, AxiomError>(None),
            path_extension(path@) == Some("md"@) ==> match path_file_stem(path@) {
                Some(stem) => r matches Ok(Some(s)) && s@ == stem,
                None => r matches Err(AxiomError::FileSystem(msg)) && msg@ == "Invalid filename"@,
            },
    {
        let is_md = match extension_of(path) {
            Some(e) => e == String::from_str("md"),
            None => false,
        };
        if !is_md {
            return Ok(None);
        }
        match file_stem_of(path) {
            Some(stem) => Ok(Some(stem)),
            None => Err(AxiomError::FileSystem(String::from_str("Invalid filename"))),
        }
    }
}

} // verus!
